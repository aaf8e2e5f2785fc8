//! The logic of a terminal screen for a coding agent: its vault, its watches, its
//! updates, and the screen itself.
pub mod app;
pub mod asking;
pub mod bars;
pub mod blocks;
pub mod choices;
pub mod commands;
pub mod connecting;
pub mod details;
pub mod effects;
pub mod events;
pub mod figures;
pub mod form;
pub mod inputs;
pub mod json;
pub mod keeping;
pub mod keyboard;
pub mod keys;
pub mod keystrokes;
pub mod lexis;
pub mod lists;
pub mod login;
pub mod markdown;
pub mod mascot;
pub mod messages;
pub mod models;
pub mod options;
pub mod orders;
pub mod outcomes;
pub mod pages;
pub mod panels;
pub mod paths;
pub mod pickers;
pub mod profiles;
pub mod promised;
pub mod promises;
pub mod prompt;
pub mod prose;
pub mod questions;
pub mod redaction;
pub mod releases;
pub mod results;
pub mod scenes;
pub mod secrecy;
pub mod sessions;
pub mod style;
pub mod suggestions;
pub mod table;
pub mod tailing;
pub mod talk;
pub mod text;
pub mod theme;
pub mod ticking;
pub mod tools;
pub mod transcript;
pub mod update;
pub mod vault;
pub mod watches;
pub mod wrap;
