use unhosted::critique::{critique, critique_lowered, Gate};

#[test]
fn clean_answer_passes_all_gates() {
    let report = critique(
        "Run the migration locally first, verify the output, then \
         apply it. You can roll back with the saved backup if needed.",
    );
    assert!(report.passed(), "unexpected findings: {:?}", report.findings);
    assert!(!report.has_risk_finding());
}

#[test]
fn tone_gate_flags_marketing_language() {
    let report = critique("This is a world-class, cutting-edge solution.");
    assert!(report.findings.iter().any(|f| f.gate == Gate::Tone));
}

#[test]
fn architecture_gate_flags_unqualified_cloud() {
    let report = critique("Store the data in an S3 bucket on AWS for durability.");
    assert!(report.findings.iter().any(|f| f.gate == Gate::Architecture));
}

#[test]
fn architecture_gate_allows_cloud_with_local_alternative() {
    let report = critique(
        "You could use an S3 bucket, but the local-first option is to \
         keep encrypted blobs on-device.",
    );
    assert!(
        !report.findings.iter().any(|f| f.gate == Gate::Architecture),
        "should not flag when a local-first alternative is named"
    );
}

#[test]
fn risk_and_ux_gates_flag_unconfirmed_destructive_action() {
    let report = critique("Just run rm -rf ./build to clear it.");
    assert!(report.findings.iter().any(|f| f.gate == Gate::Risk));
    assert!(report.findings.iter().any(|f| f.gate == Gate::Ux));
    assert!(report.has_risk_finding());
}

#[test]
fn destructive_action_with_safeguards_passes() {
    let report = critique(
        "Before proceeding, confirm the path. This rm -rf targets only \
         the build dir and you can restore it from the backup.",
    );
    assert!(
        !report.has_risk_finding(),
        "confirmation present should clear the risk gate"
    );
    assert!(
        !report.findings.iter().any(|f| f.gate == Gate::Ux),
        "reversibility present should clear the UX gate"
    );
}

#[test]
fn tone_finding_quotes_first_marker_in_list_order() {
    // "cutting-edge" appears first in the text, but "world-class" is
    // earlier in the marker list, so it is the one quoted.
    let report = critique("A cutting-edge and world-class tool.");
    assert_eq!(report.findings.len(), 1);
    assert_eq!(report.findings[0].gate, Gate::Tone);
    assert_eq!(
        report.findings[0].message,
        "Inflated/marketing phrasing detected (\"world-class\"); prefer concise, technical language."
    );
}

#[test]
fn findings_come_out_in_gate_order() {
    let report = critique("A REVOLUTIONARY plan: wipe the AWS bucket in the cloud.");
    let gates: Vec<Gate> = report.findings.iter().map(|f| f.gate).collect();
    assert_eq!(gates, vec![Gate::Tone, Gate::Architecture, Gate::Ux, Gate::Risk]);
}

#[test]
fn lowered_entry_point_is_case_sensitive() {
    // The lowered entry point expects lowercase input already.
    assert!(critique_lowered("RM -RF /").passed());
    assert!(!critique_lowered("rm -rf /").passed());
}

#[test]
fn tone_markers_match_whole_words_only() {
    let longer_word = critique("Install a supercharger on the engine.");
    assert!(!longer_word.findings.iter().any(|f| f.gate == Gate::Tone));
    let marker = critique("We SUPERCHARGE your workflow.");
    assert!(marker.findings.iter().any(|f| f.gate == Gate::Tone));
    let inside = critique("antisynergy effects");
    assert!(!inside.findings.iter().any(|f| f.gate == Gate::Tone));
    let phrase = critique("a real game changer!");
    assert!(phrase.findings.iter().any(|f| f.gate == Gate::Tone));
}
