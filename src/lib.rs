use vstd::prelude::*;

pub mod client;
pub mod command;
pub mod laws;
pub mod terminal;

verus! {

} // verus!
