//! Usage accounting for a desktop usage widget: the pure logic behind the
//! widget's data layer (log scanning, session statistics, plan quota parsing,
//! request signing, caches), verified with Verus.
use vstd::prelude::*;

pub mod cache;
pub mod config;
pub mod drag;
pub mod dsh;
pub mod json;
pub mod kv;
pub mod logs;
pub mod opencode;
pub mod plan;
pub mod providers;
pub mod sigv4;
pub mod sort;
pub mod sums;
pub mod tasks;
pub mod text;
pub mod time;

verus! {
} // verus!
