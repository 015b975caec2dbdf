//! Configuration: the warnings that loading and validating produce.
pub mod migrate;
pub mod schema;
pub mod validate;

use vstd::prelude::*;

verus! {

/// How loudly a configuration problem is reported.
#[derive(Debug, Clone, Copy, PartialEq, Eq, Structural)]
pub enum Severity {
    Info,
    Warning,
}

/// One problem found in the configuration. It never stops the program from starting.
#[derive(Debug, Clone)]
pub struct ConfigWarning {
    /// Dotted path, e.g. `"ui.theme"`.
    pub field: String,
    /// User-facing, one sentence.
    pub message: String,
    pub severity: Severity,
}

/// A warning as plain text values.
pub struct ConfigWarningView {
    pub field: Seq<char>,
    pub message: Seq<char>,
    pub severity: Severity,
}

impl View for ConfigWarning {
    type V = ConfigWarningView;

    open spec fn view(&self) -> ConfigWarningView {
        ConfigWarningView { field: self.field@, message: self.message@, severity: self.severity }
    }
}

impl ConfigWarning {
    /// A warning about `field`.
    pub fn new(field: &str, message: String, severity: Severity) -> (r: ConfigWarning)
        ensures
            r@ == (ConfigWarningView { field: field@, message: message@, severity }),
    {
        ConfigWarning { field: field.to_string(), message, severity }
    }
}

/// A configuration text that is not valid TOML, or whose structure is not a configuration;
/// it carries the parser's message and nothing else.
#[derive(Debug, Clone)]
pub struct ConfigParseError(pub String);

impl ConfigParseError {
    /// The error for a parser's `message`.
    pub fn new(message: String) -> (r: ConfigParseError)
        ensures
            r.0@ == message@,
    {
        ConfigParseError(message)
    }

    /// The message, as it is shown.
    pub fn to_string(&self) -> (r: String)
        ensures
            r@ == self.0@,
    {
        self.0.clone()
    }
}

} // verus!
