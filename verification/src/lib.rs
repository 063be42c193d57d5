//! The logic of two desktop tools: Wisper, which turns a held shortcut into dictated text,
//! and the Meeting Agent, which records a meeting, has it transcribed and writes notes.
//!
//! Nothing here opens a device, a file or a connection. Each function takes plain values and
//! gives plain values back: what to ask for next, what a reply means, what is shown or
//! written. The program around it does the asking, the showing and the writing.
//!
//! Times that are measured or written down are whole attoseconds; places in a recording are
//! whole nanoseconds. Numbers in JSON are kept as the text they were written as.

pub mod audio;
pub mod autostart;
pub mod canonical;
pub mod capture;
pub mod chat;
pub mod commands;
pub mod config;
pub mod config_file;
pub mod dashboard;
pub mod deliverables;
pub mod hotkey;
pub mod import;
pub mod job;
pub mod json;
pub mod keys;
pub mod listener;
pub mod media;
pub mod meeting_cli;
pub mod meeting_desk;
pub mod meeting_file;
pub mod members;
pub mod metadata_file;
pub mod moment;
pub mod number;
pub mod order;
pub mod overview;
pub mod page;
pub mod paths;
pub mod pipeline;
pub mod polish;
pub mod process_state;
pub mod recorder;
pub mod report;
pub mod sarvam_batch;
pub mod setup;
pub mod shortcut;
pub mod state;
pub mod storage;
pub mod submission;
pub mod summary;
pub mod text;
pub mod time;
pub mod transcribe;
pub mod transcript_file;
pub mod transcription;
pub mod updater;
pub mod upkeep;
pub mod verify;
pub mod wav;
pub mod window;
