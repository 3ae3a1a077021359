use unhosted::paths::{config_file, home_dir, join_path, EnvVars, HomeError};

fn env(xdg: Option<&str>, home: Option<&str>, up: Option<&str>, hd: Option<&str>, hp: Option<&str>) -> EnvVars {
    EnvVars {
        xdg_config_home: xdg.map(|s| s.to_string()),
        home: home.map(|s| s.to_string()),
        userprofile: up.map(|s| s.to_string()),
        homedrive: hd.map(|s| s.to_string()),
        homepath: hp.map(|s| s.to_string()),
    }
}

#[test]
fn home_precedence() {
    assert_eq!(home_dir(&env(None, Some("/h"), Some("/u"), None, None)).unwrap(), "/h");
    assert_eq!(home_dir(&env(None, Some(""), Some("C:/Users/x"), None, None)).unwrap(), "C:/Users/x");
    assert_eq!(home_dir(&env(None, None, None, Some("C:"), Some("/Users/y"))).unwrap(), "C:/Users/y");
    assert_eq!(home_dir(&env(None, None, None, Some("C:"), Some(""))), Err(HomeError::NoHome));
    assert!(HomeError::NoHome.message().starts_with("could not determine the user home directory"));
}

#[test]
fn config_file_honours_xdg() {
    assert_eq!(
        config_file(&env(Some("/x/cfg"), Some("/h"), None, None, None), "dlp.toml").unwrap(),
        "/x/cfg/unhosted/dlp.toml"
    );
    assert_eq!(
        config_file(&env(None, Some("/h/"), None, None, None), "agent-fs.toml").unwrap(),
        "/h/.config/unhosted/agent-fs.toml"
    );
    assert_eq!(config_file(&env(Some(""), None, None, None, None), "a").unwrap(), "unhosted/a");
    assert!(config_file(&env(None, None, None, None, None), "a").is_err());
    assert_eq!(join_path("/a/", "b"), "/a/b");
}
