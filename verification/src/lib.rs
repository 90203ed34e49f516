//! NCM conversion and stem separation: the decisions of the application, with
//! their contracts.
//!
//! Nothing here touches a file, a process or a window. What exists on disk,
//! what a program wrote and how it ended comes in as plain values; which
//! places to look in, which command to run, what to show and what to say goes
//! out the same way.

pub mod batch;
pub mod cli;
pub mod command;
pub mod config;
pub mod convert;
pub mod display;
pub mod double;
pub mod icon;
pub mod info;
pub mod json;
pub mod laws;
pub mod letters;
pub mod lyrics;
pub mod media;
pub mod message;
pub mod number;
pub mod order;
pub mod output;
pub mod path;
pub mod pattern;
pub mod picture;
pub mod scan;
pub mod search;
pub mod separation;
pub mod session;
pub mod sidecar;
pub mod text;
pub mod tools;
pub mod window_batch;

pub use command::{build_command, transfer_metadata};
pub use config::{
    find_separator, load_separators, SeparatorConfig, Settings, DEFAULT_OUTPUT, DEFAULT_SOURCE,
    SETTINGS_FILE,
};
pub use convert::convert_ncm_sync;
pub use media::{AudioItem, AudioKind, StemItem};
pub use message::TaskMessage;
pub use path::FilePath;
pub use scan::{scan_inputs, stamp_metadata_for_source};
pub use separation::run_separation;
pub use session::StemStudio;
pub use tools::{find_demucs, find_ffmpeg, find_tool};
