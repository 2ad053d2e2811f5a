//! The verified core of a terminal audio player for Unix.
pub mod app;
pub mod laws;
pub mod listing;
pub mod path;
pub mod player;
pub mod screen;
pub mod text;
pub mod time;
