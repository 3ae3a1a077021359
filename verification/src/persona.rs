//! The optional persona layer: a small, local, editable profile that is
//! compiled into a "WHO YOU ARE" block and prepended to the system prompt
//! when the user enables it. Empty fields are simply omitted.

use vstd::prelude::*;
use crate::text::{chars_of, joined, owned, push_joined, push_str, string_views, trim,
    trim_chars};

verus! {

/// The user's twin profile. Every field is optional.
#[derive(Debug, Clone)]
pub struct Persona {
    pub name: String,
    /// One-paragraph self-description.
    pub about: String,
    /// Personality traits.
    pub traits: Vec<String>,
    pub likes: Vec<String>,
    pub dislikes: Vec<String>,
    /// What the person cares about.
    pub values: Vec<String>,
    /// How the person communicates.
    pub style: String,
    /// Domains the person knows well.
    pub expertise: Vec<String>,
}

impl Default for Persona {
    fn default() -> (p: Self)
        ensures
            p.is_empty_spec(),
    {
        Persona {
            name: String::new(),
            about: String::new(),
            traits: Vec::new(),
            likes: Vec::new(),
            dislikes: Vec::new(),
            values: Vec::new(),
            style: String::new(),
            expertise: Vec::new(),
        }
    }
}

/// `text` when `cond` holds, nothing otherwise.
pub open spec fn when(cond: bool, text: Seq<char>) -> Seq<char> {
    if cond {
        text
    } else {
        Seq::empty()
    }
}

/// A `Label: a, b, c.` line for a list field.
pub open spec fn list_line(label: Seq<char>, items: Seq<String>) -> Seq<char> {
    label + joined(string_views(items), ", "@) + "."@
}

impl Persona {
    /// No field carries any content.
    pub open spec fn is_empty_spec(&self) -> bool {
        &&& self.name@.len() == 0
        &&& self.about@.len() == 0
        &&& self.traits@.len() == 0
        &&& self.likes@.len() == 0
        &&& self.dislikes@.len() == 0
        &&& self.values@.len() == 0
        &&& self.style@.len() == 0
        &&& self.expertise@.len() == 0
    }

    /// The compiled prompt block: a header, one line per non-empty field
    /// in a fixed order, and a closing instruction, joined by newlines;
    /// nothing at all for an empty persona.
    pub open spec fn prompt_spec(&self) -> Seq<char> {
        if self.is_empty_spec() {
            Seq::empty()
        } else {
            "# WHO YOU ARE (your persona)"@ + when(
                self.name@.len() > 0,
                "\n"@ + "You are "@ + self.name@ + "'s digital twin \u{2014} reason, decide, and speak as "@
                    + self.name@ + " would."@,
            ) + when(self.about@.len() > 0, "\n"@ + self.about@) + when(
                self.traits@.len() > 0,
                "\n"@ + list_line("Personality: "@, self.traits@),
            ) + when(self.values@.len() > 0, "\n"@ + list_line("You care about: "@, self.values@))
                + when(self.likes@.len() > 0, "\n"@ + list_line("You like: "@, self.likes@))
                + when(
                self.dislikes@.len() > 0,
                "\n"@ + list_line("You dislike: "@, self.dislikes@),
            ) + when(
                self.expertise@.len() > 0,
                "\n"@ + list_line("Your areas of depth: "@, self.expertise@),
            ) + when(self.style@.len() > 0, "\n"@ + "Communication style: "@ + self.style@)
                + "\n"@
                + "Stay in character. Reflect these preferences in what you recommend and how you say it \u{2014} never a generic assistant."@
        }
    }

    /// True when no field carries any content.
    pub fn is_empty(&self) -> (r: bool)
        ensures
            r == self.is_empty_spec(),
    {
        self.name.as_str().is_empty() && self.about.as_str().is_empty() && self.traits.len() == 0
            && self.likes.len() == 0 && self.dislikes.len() == 0 && self.values.len() == 0
            && self.style.as_str().is_empty() && self.expertise.len() == 0
    }

    /// Compiles the persona into a "WHO YOU ARE" system-prompt block, in
    /// the twin's voice; empty for an empty persona.
    pub fn to_prompt(&self) -> (s: String)
        ensures
            s@ == self.prompt_spec(),
    {
        if self.is_empty() {
            return String::new();
        }
        let mut s = owned("# WHO YOU ARE (your persona)");
        let ghost mut acc = "# WHO YOU ARE (your persona)"@;
        if !self.name.as_str().is_empty() {
            push_str(&mut s, "\n");
            push_str(&mut s, "You are ");
            push_str(&mut s, self.name.as_str());
            push_str(&mut s, "'s digital twin \u{2014} reason, decide, and speak as ");
            push_str(&mut s, self.name.as_str());
            push_str(&mut s, " would.");
        }
        proof {
            acc = acc + when(
                self.name@.len() > 0,
                "\n"@ + "You are "@ + self.name@ + "'s digital twin \u{2014} reason, decide, and speak as "@
                    + self.name@ + " would."@,
            );
            assert(s@ =~= acc);
        }
        if !self.about.as_str().is_empty() {
            push_str(&mut s, "\n");
            push_str(&mut s, self.about.as_str());
        }
        proof {
            acc = acc + when(self.about@.len() > 0, "\n"@ + self.about@);
            assert(s@ =~= acc);
        }
        push_list_line(&mut s, "Personality: ", &self.traits);
        proof {
            acc = acc + when(self.traits@.len() > 0, "\n"@ + list_line("Personality: "@, self.traits@));
        }
        push_list_line(&mut s, "You care about: ", &self.values);
        proof {
            acc = acc + when(
                self.values@.len() > 0,
                "\n"@ + list_line("You care about: "@, self.values@),
            );
        }
        push_list_line(&mut s, "You like: ", &self.likes);
        proof {
            acc = acc + when(self.likes@.len() > 0, "\n"@ + list_line("You like: "@, self.likes@));
        }
        push_list_line(&mut s, "You dislike: ", &self.dislikes);
        proof {
            acc = acc + when(
                self.dislikes@.len() > 0,
                "\n"@ + list_line("You dislike: "@, self.dislikes@),
            );
        }
        push_list_line(&mut s, "Your areas of depth: ", &self.expertise);
        proof {
            acc = acc + when(
                self.expertise@.len() > 0,
                "\n"@ + list_line("Your areas of depth: "@, self.expertise@),
            );
        }
        if !self.style.as_str().is_empty() {
            push_str(&mut s, "\n");
            push_str(&mut s, "Communication style: ");
            push_str(&mut s, self.style.as_str());
        }
        proof {
            acc = acc + when(self.style@.len() > 0, "\n"@ + "Communication style: "@ + self.style@);
            assert(s@ =~= acc);
        }
        push_str(&mut s, "\n");
        push_str(&mut s, "Stay in character. Reflect these preferences in what you recommend and how you say it \u{2014} never a generic assistant.");
        assert(s@ =~= self.prompt_spec());
        s
    }
}

fn push_list_line(s: &mut String, label: &str, items: &Vec<String>)
    ensures
        final(s)@ == old(s)@ + when(items@.len() > 0, "\n"@ + list_line(label@, items@)),
{
    if items.len() > 0 {
        push_str(s, "\n");
        push_str(s, label);
        push_joined(s, items, ", ");
        push_str(s, ".");
        assert(s@ =~= old(s)@ + ("\n"@ + list_line(label@, items@)));
    } else {
        assert(s@ =~= old(s)@ + when(items@.len() > 0, "\n"@ + list_line(label@, items@)));
    }
}

/// The persona block to prepend to the system prompt: empty when the
/// layer is disabled or no persona is set.
pub fn prompt_block(enabled: bool, persona: &Persona) -> (s: String)
    ensures
        s@ == if enabled {
            persona.prompt_spec()
        } else {
            Seq::empty()
        },
{
    if !enabled {
        return String::new();
    }
    persona.to_prompt()
}

/// The enable-flag file's text means "on": after trimming whitespace it
/// is `1`, `true`, `yes` or `on`.
pub open spec fn flag_is_on(text: Seq<char>) -> bool {
    let t = trim(text);
    t == "1"@ || t == "true"@ || t == "yes"@ || t == "on"@
}

/// Reads the persona enable flag from the flag file's text.
pub fn enabled_from_flag_text(text: &str) -> (r: bool)
    ensures
        r == flag_is_on(text@),
{
    let c = chars_of(text);
    let t = trim_chars(c.as_slice());
    let one = chars_of("1");
    let tru = chars_of("true");
    let yes = chars_of("yes");
    let on = chars_of("on");
    crate::text::chars_eq(t.as_slice(), one.as_slice()) || crate::text::chars_eq(
        t.as_slice(),
        tru.as_slice(),
    ) || crate::text::chars_eq(t.as_slice(), yes.as_slice()) || crate::text::chars_eq(
        t.as_slice(),
        on.as_slice(),
    )
}

/// The text written to the flag file for an enable choice.
pub fn flag_text(enabled: bool) -> (s: &'static str)
    ensures
        s@ == if enabled {
            "1"@
        } else {
            "0"@
        },
{
    if enabled {
        "1"
    } else {
        "0"
    }
}

/// Writing an enable choice and reading it back gives the same choice.
pub proof fn flag_round_trips(enabled: bool)
    ensures
        flag_is_on(if enabled {
            "1"@
        } else {
            "0"@
        }) == enabled,
{
    reveal_strlit("1");
    reveal_strlit("0");
    reveal_strlit("true");
    reveal_strlit("yes");
    reveal_strlit("on");
    let s: Seq<char> = if enabled {
        "1"@
    } else {
        "0"@
    };
    assert(crate::text::lead_ws(s) == 0);
    assert(crate::text::trail_ws(s) == 0);
    assert(trim(s) =~= s);
}

} // verus!
