use vstd::prelude::*;

pub mod concurrent;
pub mod gc_work;
pub mod generational;
pub mod marksweep;
pub mod pageprotect;
pub mod sticky;
pub mod tracing;

pub use tracing::{ObjectQueue, TracePolicy, VectorObjectQueue, VectorQueue};

verus! {

} // verus!
