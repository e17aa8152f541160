pub mod config;
pub mod controls;
pub mod export;
pub mod louvorja;
pub mod loading;
pub mod lrc;
pub mod lyrics_search;
pub mod model;
pub mod player;
pub mod playlist;
pub mod providers;
pub mod round_trip;
pub mod srt;
pub mod text;
pub mod timeline;
pub mod title;
pub mod utils;
