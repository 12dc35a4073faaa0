//! Search, validation and session logic of a multi-provider Minecraft mod finder.
use vstd::prelude::*;

pub mod text;
pub mod ids;
pub mod validation;
pub mod time;
pub mod models;
pub mod rate_limit;
pub mod search;
pub mod sessions;
pub mod order;
pub mod digest;
pub mod cli;
pub mod modrinth;
pub mod health;
pub mod secrets;
pub mod report;
pub mod server;

verus! {

} // verus!
