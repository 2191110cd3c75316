pub mod compress;
pub mod download;
pub mod list;
pub mod test;
