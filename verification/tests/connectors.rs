use unhosted::connectors::{
    apply_vault, connect, connectors, default_ledger, disconnect, is_known_connector,
    normalize_ledger, normalize_scopes, set_enabled, ConnectInput, ConnectorConsentLedger,
};

fn names(l: &ConnectorConsentLedger) -> Vec<&str> {
    l.connectors.iter().map(|(n, _)| n.as_str()).collect()
}

#[test]
fn known_connectors_are_fixed() {
    assert_eq!(connectors(), vec!["google", "notion", "slack"]);
    assert!(is_known_connector("slack"));
    assert!(!is_known_connector("Slack"));
    assert!(!is_known_connector("github"));
}

#[test]
fn default_ledger_denies_everything() {
    let l = default_ledger(7);
    assert_eq!(names(&l), vec!["google", "notion", "slack"]);
    for (_, c) in &l.connectors {
        assert!(!c.enabled && !c.connected && !c.has_token);
        assert!(c.scopes.is_empty() && c.account.is_none());
        assert_eq!(c.updated_at, 7);
    }
}

#[test]
fn normalize_adds_missing_known_connectors_only() {
    let mut l = ConnectorConsentLedger { connectors: vec![] };
    set_enabled(&mut l, "notion", true, 1);
    set_enabled(&mut l, "acme", true, 1);
    normalize_ledger(&mut l, 5);
    assert_eq!(names(&l), vec!["acme", "google", "notion", "slack"]);
    assert!(l.connectors[2].1.enabled);
    assert_eq!(l.connectors[1].1.updated_at, 5);
}

#[test]
fn connect_then_disable_revokes() {
    let mut l = default_ledger(0);
    let token = connect(
        &mut l,
        "google",
        ConnectInput {
            account: Some("me@example.com".into()),
            scopes: vec![" mail ".into(), "calendar".into(), "mail".into(), "  ".into()],
            access_token: Some("at".into()),
            refresh_token: Some("rt".into()),
            expires_at: Some(99),
        },
        10,
        false,
    );
    let t = token.unwrap();
    assert_eq!(t.access_token, "at");
    assert_eq!(t.refresh_token.as_deref(), Some("rt"));
    assert_eq!(t.updated_at, 10);
    let g = &l.connectors[0].1;
    assert!(g.enabled && g.connected && g.has_token);
    assert_eq!(g.scopes, vec!["calendar".to_string(), "mail".to_string()]);
    assert_eq!(g.account.as_deref(), Some("me@example.com"));
    assert!(set_enabled(&mut l, "google", false, 11));
    let g = &l.connectors[0].1;
    assert!(!g.enabled && !g.connected && !g.has_token && g.scopes.is_empty() && g.account.is_none());
    assert_eq!(g.updated_at, 11);
}

#[test]
fn connect_without_token_uses_vault_and_keeps_scopes() {
    let mut l = default_ledger(0);
    connect(
        &mut l,
        "slack",
        ConnectInput { account: None, scopes: vec!["a".into()], access_token: None, refresh_token: None, expires_at: None },
        1,
        true,
    );
    let token = connect(
        &mut l,
        "slack",
        ConnectInput { account: None, scopes: vec![], access_token: None, refresh_token: None, expires_at: None },
        2,
        false,
    );
    assert!(token.is_none());
    let s = &l.connectors[2].1;
    assert_eq!(s.scopes, vec!["a".to_string()]);
    assert!(!s.has_token);
    disconnect(&mut l, "slack", 3);
    let s = &l.connectors[2].1;
    assert!(s.enabled && !s.connected && s.scopes.is_empty());
}

#[test]
fn vault_sets_has_token_flags() {
    let mut l = default_ledger(0);
    apply_vault(&mut l, &vec!["notion".to_string(), "other".to_string()]);
    let flags: Vec<bool> = l.connectors.iter().map(|(_, c)| c.has_token).collect();
    assert_eq!(flags, vec![false, true, false]);
    assert_eq!(normalize_scopes(&vec!["b".into(), "a".into(), "b ".into()]), vec!["a".to_string(), "b".to_string()]);
}
