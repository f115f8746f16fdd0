pub mod types;
pub mod paging;
pub mod interrupts;
