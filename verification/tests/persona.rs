use unhosted::persona::{enabled_from_flag_text, flag_text, prompt_block, Persona};

#[test]
fn empty_persona_compiles_to_nothing() {
    assert!(Persona::default().is_empty());
    assert!(Persona::default().to_prompt().is_empty());
}

#[test]
fn persona_prompt_speaks_in_first_person() {
    let p = Persona {
        name: "Anita".into(),
        traits: vec!["warm".into(), "direct".into()],
        likes: vec!["chai".into()],
        ..Default::default()
    };
    let prompt = p.to_prompt();
    assert!(prompt.contains("# WHO YOU ARE"));
    assert!(prompt.contains("Anita's digital twin"));
    assert!(prompt.contains("Personality: warm, direct."));
    assert!(prompt.contains("You like: chai."));
    assert!(prompt.contains("Stay in character"));
}

#[test]
fn full_persona_lines_come_in_fixed_order() {
    let p = Persona {
        name: "Anita".into(),
        about: "A warm mother.".into(),
        traits: vec!["warm".into()],
        likes: vec!["chai".into(), "songs".into()],
        dislikes: vec!["waste".into()],
        values: vec!["family".into()],
        style: "gentle".into(),
        expertise: vec!["cooking".into()],
    };
    let lines: Vec<String> = p.to_prompt().split('\n').map(|s| s.to_string()).collect();
    assert_eq!(lines[0], "# WHO YOU ARE (your persona)");
    assert_eq!(
        lines[1],
        "You are Anita's digital twin \u{2014} reason, decide, and speak as Anita would."
    );
    assert_eq!(lines[2], "A warm mother.");
    assert_eq!(lines[3], "Personality: warm.");
    assert_eq!(lines[4], "You care about: family.");
    assert_eq!(lines[5], "You like: chai, songs.");
    assert_eq!(lines[6], "You dislike: waste.");
    assert_eq!(lines[7], "Your areas of depth: cooking.");
    assert_eq!(lines[8], "Communication style: gentle");
    assert_eq!(lines.len(), 10);
}

#[test]
fn prompt_block_is_empty_when_disabled() {
    let p = Persona {
        name: "Anita".into(),
        ..Default::default()
    };
    assert_eq!(prompt_block(false, &p), "");
    assert_eq!(prompt_block(true, &p), p.to_prompt());
}

#[test]
fn enable_flag_text_is_read_forgivingly() {
    assert!(enabled_from_flag_text(" yes\n"));
    assert!(enabled_from_flag_text("on"));
    assert!(enabled_from_flag_text("1"));
    assert!(!enabled_from_flag_text("0"));
    assert!(!enabled_from_flag_text("ON"));
    assert!(!enabled_from_flag_text(""));
    assert!(enabled_from_flag_text(flag_text(true)));
    assert!(!enabled_from_flag_text(flag_text(false)));
}
