pub mod text;
pub mod number;
pub mod error;
pub mod models;
pub mod util;
pub mod cli;
pub mod cookie;
pub mod api;
pub mod download;
pub mod ffmpeg;
