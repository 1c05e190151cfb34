//! The aggregate durable state: every key record plus the configuration.

use vstd::prelude::*;
use crate::config::{config_wf, Config, Environment};
use crate::keystore::KeyStore;

verus! {

/// The unit of ownership and of snapshot/restore. Created empty with the
/// default configuration at process start; the configuration is set once
/// during initialization and frozen afterwards.
#[derive(Debug)]
pub struct State {
    pub keys: KeyStore,
    pub config: Config,
}

impl State {
    pub open spec fn wf(&self) -> bool {
        &&& self.keys.wf()
        &&& config_wf(self.config)
    }

    /// Fresh state: empty store, `Development` configuration.
    pub fn new() -> (s: State)
        ensures
            s.wf(),
            s.keys@ == Seq::<(Seq<u8>, Seq<u8>)>::empty(),
            s.config.env == Environment::Development,
    {
        State { keys: KeyStore::new(), config: Config::default() }
    }

    /// One-time setup. An omitted environment keeps the `Development`
    /// default; the key store is never touched.
    pub fn init(&mut self, env_opt: Option<Environment>)
        requires
            old(self).wf(),
        ensures
            final(self).wf(),
            final(self).keys@ == old(self).keys@,
            match env_opt {
                Some(env) => final(self).config.env == env,
                None => final(self).config == old(self).config,
            },
    {
        if let Some(env) = env_opt {
            self.config = Config::resolve(env);
        }
    }
}

} // verus!
