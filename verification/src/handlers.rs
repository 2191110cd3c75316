pub mod chapter;
pub mod flags;
pub mod list;
pub mod range;
