//! Laybacker's library: the naming, matching and ffmpeg command logic of a
//! batch audio-layback tool, with its behaviour stated as contracts.

pub mod channels;
pub mod commands;
pub mod fastslate;
pub mod ffmpeg;
pub mod inspector;
pub mod matcher;
pub mod models;
pub mod namer;
pub mod numtext;
pub mod processing;
pub mod processor;
pub mod reports;
pub mod text;
