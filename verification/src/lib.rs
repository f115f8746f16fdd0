use vstd::prelude::*;

pub mod allocator;
pub mod arch;
pub mod drivers;
pub mod fs;
pub mod kernel;
pub mod mm;
pub mod multiboot;
pub mod shell;

verus! {

} // verus!
