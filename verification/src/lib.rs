use vstd::prelude::*;

pub mod command;
pub mod git;
pub mod hash;
pub mod search;
pub mod settings;
pub mod text;

verus! {
}
