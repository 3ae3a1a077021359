use unhosted::public_mode::{
    enforce_sanctions_defaults, sanctions_defaults, CountrySet, PeerPaymentPolicy,
};

#[test]
fn sanctions_defaults_include_comp_ofac_jurisdictions() {
    let s = sanctions_defaults();
    for code in ["KP", "IR", "SY", "CU"] {
        assert!(s.contains(code), "sanctions defaults must include {code}");
    }
}

#[test]
fn enforce_adds_missing_codes() {
    let mut p = PeerPaymentPolicy::closed();
    let changed = enforce_sanctions_defaults(&mut p);
    assert!(changed);
    for code in ["KP", "IR", "SY", "CU"] {
        assert!(p.blocked_countries.contains(code));
    }
}

#[test]
fn enforce_preserves_caller_additions() {
    let mut p = PeerPaymentPolicy::closed();
    p.blocked_countries.insert("BY");
    enforce_sanctions_defaults(&mut p);
    assert!(p.blocked_countries.contains("BY"));
    assert!(p.blocked_countries.contains("KP"));
}

#[test]
fn enforce_is_idempotent() {
    let mut p = PeerPaymentPolicy::closed();
    let first = enforce_sanctions_defaults(&mut p);
    let second = enforce_sanctions_defaults(&mut p);
    assert!(first);
    assert!(!second);
}

#[test]
fn a_policy_that_already_blocks_the_defaults_is_unchanged() {
    let mut p = PeerPaymentPolicy::closed();
    for code in ["CU", "SY", "KP", "IR"] {
        p.blocked_countries.insert(code);
    }
    assert!(!enforce_sanctions_defaults(&mut p));
    assert_eq!(p.blocked_countries.len(), 4);
}

#[test]
fn country_sets_stay_sorted_without_repeats() {
    let mut s = CountrySet::new();
    assert!(s.insert("SY"));
    assert!(s.insert("BY"));
    assert!(s.insert("KP"));
    assert!(!s.insert("BY"));
    assert_eq!(s.codes(), vec!["BY".to_string(), "KP".to_string(), "SY".to_string()]);
    let t = CountrySet::from_codes(&vec!["KP".into(), "AA".into(), "KP".into()]);
    assert_eq!(t.codes(), vec!["AA".to_string(), "KP".to_string()]);
}
