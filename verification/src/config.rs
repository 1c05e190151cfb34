//! Deployment environments and the fixed configuration table.
//!
//! `Config::resolve` is a pure, total mapping from an environment tag to the
//! operating parameters: the signing-key name understood by the external
//! authority and the cycle budget paid for a signing call.

use vstd::prelude::*;
use vstd::string::StringExecFns;

verus! {

/// The closed set of deployment environments. The default is `Development`.
#[derive(Clone, Copy, Debug, PartialEq, Eq, Structural)]
pub enum Environment {
    Development,
    Staging,
    Production,
}

impl Default for Environment {
    fn default() -> (r: Self)
        ensures
            r == Environment::Development,
    {
        Environment::Development
    }
}

/// The signing-key name the external authority knows `env` by.
pub open spec fn spec_key_name(env: Environment) -> Seq<char> {
    match env {
        Environment::Development => "dfx_test_key"@,
        Environment::Staging => "test_key_1"@,
        Environment::Production => "key_1"@,
    }
}

/// The cycle budget paid for one external signing call in `env`.
pub open spec fn spec_sign_cycles(env: Environment) -> u64 {
    match env {
        Environment::Development => 0,
        Environment::Staging => 10_000_000_000,
        Environment::Production => 26_153_846_153,
    }
}

/// Operating parameters, set once at initialization from the environment tag
/// and never mutated afterward.
#[derive(Debug)]
pub struct Config {
    pub env: Environment,
    pub key_name: String,
    pub sign_cycles: u64,
}

/// A well-formed `Config` is exactly a row of the fixed table: its key name
/// and cycle budget are the ones `spec_key_name` and `spec_sign_cycles` give
/// for its environment tag.
pub open spec fn config_wf(c: Config) -> bool {
    &&& c.key_name@ == spec_key_name(c.env)
    &&& c.sign_cycles == spec_sign_cycles(c.env)
}

impl Config {
    /// Pure, total lookup of the configuration table.
    pub fn resolve(env: Environment) -> (c: Config)
        ensures
            c.env == env,
            config_wf(c),
    {
        match env {
            Environment::Development => Config {
                env: Environment::Development,
                key_name: String::from_str("dfx_test_key"),
                sign_cycles: 0,
            },
            Environment::Staging => Config {
                env: Environment::Staging,
                key_name: String::from_str("test_key_1"),
                sign_cycles: 10_000_000_000,
            },
            Environment::Production => Config {
                env: Environment::Production,
                key_name: String::from_str("key_1"),
                sign_cycles: 26_153_846_153,
            },
        }
    }
}

impl Default for Config {
    /// An omitted environment resolves to `Development`.
    fn default() -> (c: Self)
        ensures
            c.env == Environment::Development,
            config_wf(c),
    {
        Config::resolve(Environment::Development)
    }
}

} // verus!
