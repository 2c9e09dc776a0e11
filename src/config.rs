//! Settings: the interface language, the key bindings, and the errors of
//! reading and writing them.

use vstd::prelude::*;

verus! {

/// The interface language.
#[derive(Debug, Clone, Copy, PartialEq, Eq, Structural)]
pub enum Language {
    Japanese,
    English,
    ChineseSimplified,
    ChineseTraditional,
}

impl Default for Language {
    fn default() -> (r: Self)
        ensures
            r == Language::Japanese,
    {
        Language::Japanese
    }
}

/// The names of the keys bound to each function.
#[derive(Debug, Clone)]
pub struct KeyBindings {
    /// Opens the settings window.
    pub open_settings: String,
    /// Shows or hides the overlay.
    pub toggle_overlay: String,
    pub normal_attack: String,
    pub chain_attack: String,
    pub operator1_skill: String,
    pub operator2_skill: String,
    pub operator3_skill: String,
    pub operator4_skill: String,
    pub heavy_attack: String,
}

impl Default for KeyBindings {
    fn default() -> (r: Self)
        ensures
            r.open_settings@ == "Home"@,
            r.toggle_overlay@ == "F1"@,
            r.normal_attack@ == "MouseLeft"@,
            r.chain_attack@ == "E"@,
            r.operator1_skill@ == "1"@,
            r.operator2_skill@ == "2"@,
            r.operator3_skill@ == "3"@,
            r.operator4_skill@ == "4"@,
            r.heavy_attack@ == "MouseLeft"@,
    {
        KeyBindings {
            open_settings: String::from_str("Home"),
            toggle_overlay: String::from_str("F1"),
            normal_attack: String::from_str("MouseLeft"),
            chain_attack: String::from_str("E"),
            operator1_skill: String::from_str("1"),
            operator2_skill: String::from_str("2"),
            operator3_skill: String::from_str("3"),
            operator4_skill: String::from_str("4"),
            heavy_attack: String::from_str("MouseLeft"),
        }
    }
}

/// Why the settings could not be read or written.
#[derive(Debug, Clone)]
pub enum ConfigError {
    IoError(String),
    ParseError(String),
    SerializeError(String),
}

/// The message that describes a settings error of the given kind and detail.
pub open spec fn config_error_message(e: ConfigError) -> Seq<char> {
    match e {
        ConfigError::IoError(msg) => "IO error: "@ + msg@,
        ConfigError::ParseError(msg) => "Parse error: "@ + msg@,
        ConfigError::SerializeError(msg) => "Serialize error: "@ + msg@,
    }
}

impl ConfigError {
    /// The message that describes the error.
    pub fn message(&self) -> (r: String)
        ensures
            r@ == config_error_message(*self),
    {
        let (mut out, detail) = match self {
            ConfigError::IoError(msg) => (String::from_str("IO error: "), msg),
            ConfigError::ParseError(msg) => (String::from_str("Parse error: "), msg),
            ConfigError::SerializeError(msg) => (String::from_str("Serialize error: "), msg),
        };
        out.append(detail.as_str());
        out
    }
}

} // verus!
