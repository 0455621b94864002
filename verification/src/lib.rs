use vstd::prelude::*;

pub mod binds;
pub mod boot;
pub mod cfg_meta;
pub mod config;
pub mod engine;
pub mod input;
pub mod text;

verus! {

} // verus!
