//! A lightweight dynamic DNS updater: the configuration model and its
//! validation, the placeholder language used in record targets and webhook
//! bodies, the address-update rules and the Cloudflare synchronisation
//! decisions.
pub mod text;

pub mod error;
pub mod types;
pub mod ip;
pub mod config;
pub mod provider;
pub mod webhook;
