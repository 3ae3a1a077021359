use unhosted::update_check::{is_newer, newer_release, update_check_disabled};

#[test]
fn is_newer_basic_semver() {
    assert!(is_newer("0.0.62", "0.0.61"));
    assert!(is_newer("0.1.0", "0.0.61"));
    assert!(is_newer("1.0.0", "0.99.99"));
    assert!(!is_newer("0.0.61", "0.0.61"));
    assert!(!is_newer("0.0.60", "0.0.61"));
}

#[test]
fn is_newer_rejects_garbage() {
    assert!(!is_newer("foo", "0.0.61"));
    assert!(!is_newer("0.0.61", "bar"));
    assert!(!is_newer("0.0.62-rc.1", "0.0.61"));
}

#[test]
fn is_newer_edge_cases() {
    assert!(is_newer("0.0.62.7", "0.0.61"));
    assert!(!is_newer("0.0", "0.0.0"));
    assert!(!is_newer("4294967296.0.0", "0.0.1"));
    assert!(is_newer("4294967295.0.0", "0.0.1"));
    assert!(is_newer("+1.0.0", "0.0.1"));
    assert!(!is_newer("1..0", "0.0.1"));
}

#[test]
fn newer_release_strips_v() {
    assert_eq!(newer_release("v0.0.67", "0.0.66").as_deref(), Some("0.0.67"));
    assert_eq!(newer_release("0.0.67", "0.0.66").as_deref(), Some("0.0.67"));
    assert_eq!(newer_release("v0.0.66", "0.0.66"), None);
    assert_eq!(newer_release("vv0.0.67", "0.0.66"), None);
}

#[test]
fn opt_out_values() {
    assert!(update_check_disabled(Some("1")));
    assert!(update_check_disabled(Some("true")));
    assert!(update_check_disabled(Some("yes")));
    assert!(!update_check_disabled(Some("0")));
    assert!(!update_check_disabled(Some("YES")));
    assert!(!update_check_disabled(None));
}
