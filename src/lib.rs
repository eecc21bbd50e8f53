use vstd::prelude::*;

pub mod keyed;
pub mod names;
pub mod resolver;
pub mod feature_buffer;
pub mod report;
pub mod editable_toml;
pub mod in_memory_toml;
pub mod engine;

verus! {

} // verus!
