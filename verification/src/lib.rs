//! The logic of fluxus, a terminal front end for `arduino-cli`.

pub mod app;
pub mod cli;
pub mod lists;
pub mod project;
pub mod settings;
pub mod sketch;
pub mod text;
pub mod ui;
