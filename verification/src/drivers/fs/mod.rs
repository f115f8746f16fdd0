pub mod char_adapter;
pub mod initrd;
