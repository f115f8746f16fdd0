pub mod char;
pub mod fs;
pub mod traits;
