//! An engine for browsing the images of a folder in two independent modes,
//! sequential and shuffled without repetition, with cursors that survive
//! hiding, deletion and folders that leave the disk.
//!
//! The engine holds the whole store in memory and never touches the disk
//! itself. Where an operation depends on the file system, the caller looks
//! and reports what it found; what to do about it is decided here, and every
//! decision is verified against its contract.
//!
//! - `img_loader` is the engine: folder selection and recovery, both
//!   traversal modes, scanning, and whole requests step by step.
//! - `folder`, `navigation`, `shuffle`, `upkeep` and `rows` hold one folder's
//!   rows and what the modes do to them.
//! - `entries` holds the ordered lists underneath.
//! - `scanner` decides what a scan takes in and reports.
//! - `commands` and `error` are the boundary: the values handed to callers
//!   and the failures as an end user sees them.
//! - `laws` states what holds of the modes across operations.

pub mod commands;
pub mod db;
pub mod entries;
pub mod error;
pub mod folder;
pub mod img_loader;
pub mod items;
pub mod laws;
pub mod navigation;
pub mod rows;
pub mod scanner;
pub mod shuffle;
pub mod text;
pub mod upkeep;
