pub mod cert;
pub mod cli;
pub mod commands;
pub mod config;
pub mod elevation;
pub mod error;
pub mod exit;
pub mod jvm;
pub mod keystore;
pub mod logging;
pub mod ops;
pub mod paths;
pub mod text;
pub mod urls;

use vstd::prelude::*;

verus! {

/// The prefix of the keystore aliases that jcm manages.
pub const DEFAULT_ALIAS_PREFIX: &'static str = "jcm-";

/// The password of a JDK's default trust store.
pub const DEFAULT_STORE_PASS: &'static str = "changeit";

} // verus!
