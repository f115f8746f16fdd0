pub mod traits;
pub mod types;
pub mod vfs_core;
