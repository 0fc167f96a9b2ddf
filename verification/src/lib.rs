//! Decision core of an archive manager.
//!
//! Every module holds rules, parsers and state machines over plain values.
//! Reading and writing files, the registry and the shell is left to the
//! program around the library.

pub mod associations;
pub mod cli;
pub mod cli_run;
pub mod command_line;
pub mod composite;
pub mod compression_progress;
pub mod context_menu;
pub mod create_run;
pub mod creation;
pub mod drop_target;
pub mod engine;
pub mod error;
pub mod explorer_drag;
pub mod extracting;
pub mod fallback;
pub mod ffi;
pub mod file_ops;
pub mod format;
pub mod installing;
pub mod interfaces;
pub mod joined;
pub mod listing;
pub mod menu_registration;
pub mod names;
pub mod options;
pub mod order;
pub mod parallel;
pub mod paths;
pub mod pipeline;
pub mod planning;
pub mod progress;
pub mod read_run;
pub mod registry;
pub mod settings;
pub mod shell;
pub mod shell_ext;
pub mod source;
pub mod stamps;
pub mod streams;
pub mod target_run;
pub mod taskbar;
pub mod text;
pub mod titlebar;
pub mod unsupported;
pub mod updating;
pub mod volumes;
pub mod wildcard;
pub mod zip_creation;
pub mod zip_extraction;
pub mod zip_file;
pub mod zip_item;
pub mod zip_names;
pub mod zip_run;
pub mod zone_identifier;

use vstd::prelude::*;

verus! {

} // verus!
