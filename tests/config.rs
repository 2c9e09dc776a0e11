use combo_navi::config::{ConfigError, KeyBindings, Language};

#[test]
fn default_language_is_japanese() {
    assert_eq!(Language::default(), Language::Japanese);
}

#[test]
fn default_key_bindings() {
    let b = KeyBindings::default();
    assert_eq!(b.open_settings, "Home");
    assert_eq!(b.toggle_overlay, "F1");
    assert_eq!(b.normal_attack, "MouseLeft");
    assert_eq!(b.chain_attack, "E");
    assert_eq!(b.operator1_skill, "1");
    assert_eq!(b.operator4_skill, "4");
    assert_eq!(b.heavy_attack, "MouseLeft");
}

#[test]
fn config_error_messages() {
    assert_eq!(ConfigError::IoError("a".to_string()).message(), "IO error: a");
    assert_eq!(ConfigError::ParseError("b".to_string()).message(), "Parse error: b");
    assert_eq!(ConfigError::SerializeError("c".to_string()).message(), "Serialize error: c");
}
