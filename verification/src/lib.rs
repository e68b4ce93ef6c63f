//! The logic of a tool that reclaims disk space from idle development projects: the
//! registry of repositories and passes, the per-repository configuration, the
//! background scheduler's files, and the text they are read from and written to.
use vstd::prelude::*;

pub mod config;
pub mod daemon;
pub mod declared;
pub mod discovery;
pub mod engine;
pub mod flow;
pub mod history;
pub mod i18n;
pub mod order;
pub mod pass;
pub mod scan;
pub mod status;
pub mod text;
pub mod trust;
pub mod uninstall;
pub mod update;

verus! {

} // verus!
