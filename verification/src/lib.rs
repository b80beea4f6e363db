use vstd::prelude::*;

pub mod collections;
pub mod crates;
pub mod download;
pub mod fetch;
pub mod format;
pub mod links;
pub mod pages;
pub mod resolve;
pub mod session;
pub mod text;
pub mod tracker;

verus! {

} // verus!
