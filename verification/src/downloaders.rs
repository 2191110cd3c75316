pub mod chapmanganato;
pub mod downloader;
pub mod downloaders;
pub mod handlers;
