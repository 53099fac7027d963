use vstd::prelude::*;

pub mod text;
pub mod language;
pub mod submission;
pub mod tester;
pub mod ranking;
pub mod command;
pub mod bot;
pub mod laws;

verus! {

} // verus!
