use vstd::prelude::*;

pub mod builder;
pub mod codegen;
pub mod discovery;
pub mod fetch;
pub mod runtime;
pub mod sorted_map;
pub mod text;
pub mod transform;

verus! {

} // verus!
