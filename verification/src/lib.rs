//! The verified core of a terminal front-end for a self-hosted, Bandit-style
//! Linux wargame: campaign configuration, level content, player progress,
//! the commands that open a level's shell, and the text that the screen shows.
pub mod config;
pub mod doctor;
pub mod model;
pub mod save;
pub mod session;
pub mod text;
pub mod ui;
pub mod world;
