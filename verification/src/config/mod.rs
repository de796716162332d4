//! The configuration: its model, its validation, and the store that holds
//! the one accepted at start-up.
pub mod parse;

use vstd::prelude::*;

use crate::config::parse::{Config, ConfigError, check, check_result};

verus! {

/// Where the accepted configuration is kept: empty until a configuration
/// passes its check, then holding that configuration for good.
#[derive(Debug)]
pub struct ConfigStore {
    config: Option<Config>,
}

impl View for ConfigStore {
    type V = Option<Config>;

    closed spec fn view(&self) -> Option<Config> {
        self.config
    }
}

impl ConfigStore {
    /// An empty store.
    pub fn new() -> (s: ConfigStore)
        ensures
            s@ is None,
    {
        ConfigStore { config: None }
    }

    /// Whether the store holds a configuration.
    pub fn is_initialized(&self) -> (b: bool)
        ensures
            b == self@ is Some,
    {
        self.config.is_some()
    }
}

/// The configuration the store holds.
pub fn get_config(store: &ConfigStore) -> (c: &Config)
    requires
        store@ is Some,
    ensures
        *c == store@->0,
{
    match &store.config {
        Some(c) => c,
        None => vstd::pervasive::unreached(),
    }
}

/// Checks `config` and, when it passes, keeps it in the store: what is read
/// back after an accepted configuration is that configuration. A store
/// that already holds a configuration accepts no other one (it may still
/// be asked to check one that fails) and never changes.
pub fn init_config(store: &mut ConfigStore, config: Config) -> (r: Result<(), ConfigError>)
    requires
        old(store)@ is None || check_result(config) is Err,
    ensures
        match check_result(config) {
            Ok(()) => r is Ok && final(store)@ == Some(config),
            Err(e) => r matches Err(err) && err@ == e && final(store)@ == old(store)@,
        },
        r is Ok ==> final(store)@ == Some(config),
        old(store)@ is Some ==> final(store)@ == old(store)@,
{
    match check(&config) {
        Ok(()) => {
            store.config = Some(config);
            Ok(())
        },
        Err(e) => Err(e),
    }
}

/// Like `init_config`, for a store that may already be initialized: gives
/// `None`, and leaves the store as it is, when the store holds a
/// configuration and `config` passes its check; otherwise what
/// `init_config` gives. Once a store holds a configuration, it keeps it.
pub fn try_init_config(store: &mut ConfigStore, config: Config) -> (r: Option<Result<(), ConfigError>>)
    ensures
        match check_result(config) {
            Ok(()) => if old(store)@ is None {
                r matches Some(Ok(())) && final(store)@ == Some(config)
            } else {
                r is None && final(store)@ == old(store)@
            },
            Err(e) => r matches Some(Err(err)) && err@ == e && final(store)@ == old(store)@,
        },
        r matches Some(Ok(())) ==> final(store)@ == Some(config),
        old(store)@ is Some ==> final(store)@ == old(store)@,
{
    if store.is_initialized() {
        match check(&config) {
            Ok(()) => None,
            Err(e) => Some(Err(e)),
        }
    } else {
        Some(init_config(store, config))
    }
}

} // verus!
