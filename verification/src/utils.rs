pub mod compress;
pub mod list;
