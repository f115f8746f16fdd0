pub mod syscall;
pub mod task;
pub mod types;
pub mod user;
