//! An addon manager for a game client, as a library: the state machine of
//! its interactive prompt, the grammar of its commands, the plan by which a
//! command does its work piece by piece, the reading of addon manifests and
//! of the game's version files, the addresses of the addon catalog, and the
//! table in which addons are shown.
//!
//! The library does no input or output. A program around it reads lines,
//! keys, files and answers of the catalog, hands them to the library as
//! plain values, and acts on what the library returns.

pub mod cli_loop;
pub mod command;
pub mod config;
pub mod curseforge_api;
pub mod executor;
pub mod game_version;
pub mod installed_mods;
pub mod mod_table;
pub mod models;
pub mod text;
pub mod tokenizer;
