use ttfm::config::{
    Config, ConfirmMode, ConflictPolicy, HardlinkPolicy, PluginStatus, RawConfig, SkipScope,
};

fn text_at(value: &toml::Value, table: &str, key: &str) -> Option<String> {
    value.get(table)?.get(key)?.as_str().map(|s| s.to_string())
}

/// What a file says, key by key.
fn raw(source: &str) -> RawConfig {
    let value: toml::Value = toml::from_str(source).unwrap();
    let plugins = value.get("plugins");
    RawConfig {
        plugins_enabled: plugins.and_then(|p| p.get("enabled")).and_then(|e| e.as_bool()),
        plugin_status: plugins
            .and_then(|p| p.get("status"))
            .and_then(|s| s.as_table())
            .map(|t| {
                t.iter()
                    .map(|(name, v)| PluginStatus {
                        name: name.to_string(),
                        enabled: v.as_bool().unwrap(),
                    })
                    .collect()
            })
            .unwrap_or_default(),
        confirm: text_at(&value, "edit", "confirm"),
        on_conflict: text_at(&value, "edit", "on_conflict"),
        on_hardlink: text_at(&value, "edit", "on_hardlink"),
        skip_scope: text_at(&value, "edit", "skip_scope"),
    }
}

fn parsed(source: &str) -> Config {
    Config::from_raw(raw(source)).unwrap()
}

#[test]
fn test_default_config() {
    let config = Config::new();
    assert!(config.plugins.enabled);
    assert!(config.plugins.status.is_empty());
}

#[test]
fn test_parse_enabled_false() {
    let config = parsed(
        r#"[plugins]
enabled = false"#,
    );
    assert!(!config.plugins.enabled);
}

#[test]
fn test_parse_plugin_status() {
    let config = parsed(
        r#"[plugins]
enabled = true

[plugins.status]
sample = false
mimetype = true"#,
    );
    assert!(config.plugins.enabled);
    assert_eq!(config.plugins.status("sample"), Some(false));
    assert_eq!(config.plugins.status("mimetype"), Some(true));
    assert_eq!(config.plugins.status("other"), None);
}

#[test]
fn test_empty_toml_uses_defaults() {
    let config = parsed("");
    assert!(config.plugins.enabled);
    assert_eq!(config.edit.confirm, ConfirmMode::Auto);
    assert_eq!(config.edit.on_conflict, None);
    assert_eq!(config.edit.on_hardlink, None);
    assert_eq!(config.edit.skip_scope, SkipScope::Item);
}

#[test]
fn test_parse_edit_config() {
    let config = parsed(
        r#"[edit]
confirm = "never"
on_conflict = "serial"
on_hardlink = "all"
skip_scope = "fs_only""#,
    );
    assert_eq!(config.edit.confirm, ConfirmMode::Never);
    assert_eq!(config.edit.on_conflict, Some(ConflictPolicy::Serial));
    assert_eq!(config.edit.on_hardlink, Some(HardlinkPolicy::All));
    assert_eq!(config.edit.skip_scope, SkipScope::FsOnly);
}

#[test]
fn a_value_that_is_not_known_is_refused() {
    let refused = Config::from_raw(raw("[edit]\nconfirm = \"sometimes\"")).unwrap_err();
    assert_eq!(refused.value, "sometimes");
    assert!(Config::from_raw(raw("[edit]\non_hardlink = \"some\"")).is_err());
    assert!(Config::from_raw(raw("[edit]\nskip_scope = \"\"")).is_err());
    assert_eq!(ConflictPolicy::from_name("serial"), Some(ConflictPolicy::Serial));
    assert_eq!(ConflictPolicy::from_name("Serial"), None);
    assert_eq!(ConfirmMode::from_name("always"), Some(ConfirmMode::Always));
}

#[test]
fn settings_that_cannot_be_read_are_the_usual_ones() {
    let usual = Config::new();
    let none = Config::load(None);
    assert_eq!(none.edit, usual.edit);
    assert!(none.plugins.enabled);
    assert!(none.plugins.status.is_empty());
    let source = "[plugins]\nenabled = false\n[edit]\nconfirm = \"never\"\n";
    let read = Config::load(Some(raw(source)));
    assert_eq!(read.edit.confirm, ConfirmMode::Never);
    assert!(!read.plugins.enabled);
    let unknown = "[plugins]\nenabled = false\n[edit]\nconfirm = \"sometimes\"\n";
    let refused = Config::load(Some(raw(unknown)));
    assert_eq!(refused.edit, usual.edit);
    assert!(refused.plugins.enabled);
}
