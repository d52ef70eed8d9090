use vstd::prelude::*;
use crate::tree::{val_view, ValV, Node};

verus! {

/// Every way configuration resolution can fail.
#[derive(Debug)]
pub enum ConfigError {
    /// The environment-selection string is outside the closed set; carries
    /// the offending value.
    UnsupportedEnvironment(String),
    /// The mandatory base file is absent or unreadable.
    BaseFileMissing,
    /// The mandatory environment-specific file is absent or unreadable.
    EnvFileMissing,
    /// A source file is not well-formed YAML.
    ParseError,
    /// Numeric coercion failed; carries the key path and the raw value.
    TypeMismatch(Vec<String>, Node),
    /// A mandatory field is absent after the merge; carries the key path.
    MissingField(Vec<String>),
}

/// The mathematical shape of a [`ConfigError`].
pub ghost enum ConfigErrorV {
    UnsupportedEnvironment(Seq<char>),
    BaseFileMissing,
    EnvFileMissing,
    ParseError,
    TypeMismatch(Seq<Seq<char>>, ValV),
    MissingField(Seq<Seq<char>>),
}

impl View for ConfigError {
    type V = ConfigErrorV;

    open spec fn view(&self) -> ConfigErrorV {
        match self {
            ConfigError::UnsupportedEnvironment(s) => ConfigErrorV::UnsupportedEnvironment(s@),
            ConfigError::BaseFileMissing => ConfigErrorV::BaseFileMissing,
            ConfigError::EnvFileMissing => ConfigErrorV::EnvFileMissing,
            ConfigError::ParseError => ConfigErrorV::ParseError,
            ConfigError::TypeMismatch(p, v) => ConfigErrorV::TypeMismatch(
                p.deep_view(),
                val_view(*v),
            ),
            ConfigError::MissingField(p) => ConfigErrorV::MissingField(p.deep_view()),
        }
    }
}

} // verus!
