//! Memory-usage model for a terminal dashboard: counters read from the
//! kernel's meminfo text, the metrics derived from them, and the proportional
//! layout of one bar per memory category.

pub mod layout;
pub mod meminfo;
pub mod snapshot;
