pub mod assets;
pub mod auth;
pub mod config;
pub mod digest;
pub mod error;
pub mod filters;
pub mod headers;
pub mod input;
pub mod items;
pub mod laws;
pub mod number;
pub mod pages;
pub mod preview;
pub mod storage;
pub mod text;
pub mod uploads;
pub mod workspace;
