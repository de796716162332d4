//! DNS providers and the records they hold.
pub mod cloudflare;

use vstd::prelude::*;

verus! {

/// A DNS provider account and its credential.
#[derive(Debug, Clone)]
pub enum Provider {
    CloudFlare { key: String },
}

} // verus!
