use vstd::prelude::*;

pub mod cli;
pub mod color;
pub mod commands;
pub mod hex;
pub mod path;
pub mod record;
pub mod store;
pub mod text;

verus! {

} // verus!
