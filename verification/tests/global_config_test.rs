use cortx::global_config::{GlobalConfig, VaultEntry};

#[test]
fn register_vault_adds_entry() {
    let mut cfg = GlobalConfig::default();
    cfg.register_vault("work", "/tmp/work".to_string()).unwrap();
    assert!(cfg.vaults.contains_key("work"));
    assert_eq!(cfg.vaults.get("work").unwrap().path, "/tmp/work");
}

#[test]
fn register_vault_duplicate_name_errors() {
    let mut cfg = GlobalConfig::default();
    cfg.register_vault("work", "/tmp/work".to_string()).unwrap();
    let result = cfg.register_vault("work", "/tmp/other".to_string());
    assert!(result.is_err());
    let msg = result.unwrap_err().to_string();
    assert!(msg.contains("work"), "error should mention vault name");
}

#[test]
fn resolve_path_returns_default_vault() {
    let mut cfg = GlobalConfig::default();
    cfg.vaults.insert("personal".into(), VaultEntry { path: "/tmp/personal".into() });
    cfg.default = Some("personal".into());
    assert_eq!(cfg.resolve_path(None), Some("/tmp/personal".to_string()));
}

#[test]
fn resolve_path_by_name() {
    let mut cfg = GlobalConfig::default();
    cfg.vaults.insert("work".into(), VaultEntry { path: "/tmp/work".into() });
    cfg.default = Some("work".into());
    cfg.vaults.insert("personal".into(), VaultEntry { path: "/tmp/personal".into() });
    assert_eq!(cfg.resolve_path(Some("personal")), Some("/tmp/personal".to_string()));
}

#[test]
fn resolve_path_missing_name_returns_none() {
    let mut cfg = GlobalConfig::default();
    cfg.vaults.insert("work".into(), VaultEntry { path: "/tmp/work".into() });
    assert_eq!(cfg.resolve_path(None), None);
}

#[test]
fn resolve_path_unknown_name_returns_none() {
    let cfg = GlobalConfig::default();
    assert_eq!(cfg.resolve_path(Some("ghost")), None);
}

#[test]
fn register_then_resolve_finds_the_vault() {
    let mut cfg = GlobalConfig::default();
    cfg.register_vault("notes", "/srv/notes".to_string()).unwrap();
    assert_eq!(cfg.resolve_path(Some("notes")), Some("/srv/notes".to_string()));
    assert_eq!(cfg.resolve_path(None), None);
}

#[test]
fn duplicate_registration_keeps_the_first_path() {
    let mut cfg = GlobalConfig::default();
    cfg.register_vault("work", "/tmp/work".to_string()).unwrap();
    let err = cfg.register_vault("work", "/tmp/other".to_string()).unwrap_err();
    assert_eq!(err.to_string(), "storage error: vault name 'work' is already registered");
    assert_eq!(cfg.resolve_path(Some("work")), Some("/tmp/work".to_string()));
}

#[test]
fn vault_named_reports_unknown_names() {
    let cfg = GlobalConfig::default();
    assert_eq!(
        cfg.vault_named("nope").unwrap_err().to_string(),
        "storage error: vault 'nope' not found in global config"
    );
}
