//! Which rules are switched on.

use vstd::prelude::*;

verus! {

/// One switch per rule.
#[derive(Clone, Copy, Debug, PartialEq, Eq, Structural)]
pub struct ConfigRules {
    pub identifier_matches_filename: bool,
    pub implicit_case_default: bool,
    pub parameter_in_package: bool,
}

/// The configuration of a lint run.
#[derive(Clone, Copy, Debug, PartialEq, Eq, Structural)]
pub struct Config {
    pub rules: ConfigRules,
}

impl Config {
    /// The configuration with every rule switched off.
    pub fn new() -> (r: Config)
        ensures
            !r.rules.identifier_matches_filename,
            !r.rules.implicit_case_default,
            !r.rules.parameter_in_package,
    {
        Config {
            rules: ConfigRules {
                identifier_matches_filename: false,
                implicit_case_default: false,
                parameter_in_package: false,
            },
        }
    }

    /// This configuration with every rule switched on.
    pub fn enable_all(self) -> (r: Config)
        ensures
            r.rules.identifier_matches_filename,
            r.rules.implicit_case_default,
            r.rules.parameter_in_package,
    {
        Config {
            rules: ConfigRules {
                identifier_matches_filename: true,
                implicit_case_default: true,
                parameter_in_package: true,
            },
        }
    }
}

} // verus!
