use vstd::prelude::*;

pub mod client;
pub mod command;
pub mod event;
pub mod handler;
pub mod json;
pub mod markov;
pub mod reaction;
pub mod session;
pub mod strings;
pub mod types;

verus! {

} // verus!
