use vstd::prelude::*;

pub mod adaptive;
pub mod error;
pub mod features;
pub mod lighting;
pub mod loop_closure;
pub mod mapping;
pub mod memory;
pub mod optimization;
pub mod plane;
pub mod qr_target;

verus! {

} // verus!

