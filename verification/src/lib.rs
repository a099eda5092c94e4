//! A 7-key rhythm game's library: chart readers for the osu!mania and O2Jam
//! formats, the osu! skin configuration reader, the game's configuration and the
//! play model that judges key presses.

pub mod audio;
pub mod button;
pub mod bytes;
pub mod config;
pub mod model;
pub mod scene;
pub mod skin;
pub mod text;
pub mod chart;
