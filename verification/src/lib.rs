//! The rules by which NEO is packaged, signed and notarized, and the palettes and menus of the app.
//!
//! Everything that decides stands here, and is proved against its contract. What reads files, runs
//! commands or opens windows stands outside: it hands in what it found, as plain values, and does
//! what it is told. A path is a byte string, as on any Unix. A value that could not be had comes in
//! as an `Err` with the text of the reason. A refusal is a `Failure`, whose text says what was
//! refused and why.
//!
//! The modules, from the ground up:
//!
//! - `text`, `bytes`, `encoding`, `failure`, `path`, `order`: texts, byte strings, refusals and
//!   paths;
//! - `command`: the commands that are run, and what came of them;
//! - `tree`, `documents`, `property_list`, `digest`, `platform`: documents, digests and target
//!   selectors, as other crates read and compute them;
//! - `arguments`, `source`, `sdk`, `manifest`, `environment`, `rustflags`, `walk`, `configuration`:
//!   the tasks, and the settings of a build;
//! - `macho`, `artifact`, `bundle`, `nested`, `hygiene`, `release`: the built executable and the app
//!   around it;
//! - `signing`, `signatures`, `notary`: signatures, and the answers of the notary service;
//! - `pipeline`, `verification`, `release_build`, `preparation`, `package`, `sign`, `notarize`, `local`:
//!   the runs, step by step;
//! - `theme`, `menu`: what the app looks like.

pub mod arguments;
pub mod artifact;
pub mod bundle;
pub mod bytes;
pub mod command;
pub mod configuration;
pub mod digest;
pub mod documents;
pub mod encoding;
pub mod environment;
pub mod failure;
pub mod hygiene;
pub mod local;
pub mod macho;
pub mod manifest;
pub mod menu;
pub mod nested;
pub mod notarize;
pub mod notary;
pub mod order;
pub mod package;
pub mod path;
pub mod pipeline;
pub mod platform;
pub mod preparation;
pub mod property_list;
pub mod release;
pub mod release_build;
pub mod rustflags;
pub mod sdk;
pub mod sign;
pub mod signatures;
pub mod signing;
pub mod source;
pub mod text;
pub mod theme;
pub mod tree;
pub mod verification;
pub mod walk;
