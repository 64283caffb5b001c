//! Medium: a personal service-access overlay. This crate holds the verified core logic.
#![allow(unused_imports)]

use vstd::prelude::*;

pub mod agent_cli;
pub mod app;
pub mod cli;
pub mod client_api;
pub mod crypto;
pub mod doctor;
pub mod install;
pub mod invite;
pub mod netstack;
pub mod paths;
pub mod primitives;
pub mod protocol;
pub mod ssh;
pub mod state;
pub mod text;
pub mod toml;
pub mod transport;

verus! {
} // verus!
