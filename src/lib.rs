use vstd::prelude::*;

pub mod env;
pub mod forge_arg;
pub mod registry;
pub mod report;
pub mod scheduler;
pub mod strings;
pub mod tool;
pub mod toolset;

verus! {

} // verus!
