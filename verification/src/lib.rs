//! The logic of a web front end for yt-dlp: the download queue, the classification of yt-dlp's
//! output, the library and its thumbnails, and the HTML that the browser is sent.
pub mod clock;
pub mod config;
pub mod digits;
pub mod double;
pub mod events;
pub mod form;
pub mod import;
pub mod json;
pub mod library;
pub mod markup;
pub mod media;
pub mod number;
pub mod parse;
pub mod persist;
pub mod render;
pub mod server;
pub mod state;
pub mod text;
pub mod thumb;
pub mod worker;
pub mod ytdlp;
