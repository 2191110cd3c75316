pub mod address;
pub mod chapmanganato;
pub mod cli;
pub mod commands;
pub mod downloaders;
pub mod flags;
pub mod globals;
pub mod handlers;
pub mod html;
pub mod listing;
pub mod mangakakalot;
pub mod oldmain;
pub mod page;
pub mod pattern;
pub mod text;
pub mod util;
pub mod utils;
