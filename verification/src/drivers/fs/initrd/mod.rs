pub mod impl_vfs;
pub mod tar;
pub mod types;
