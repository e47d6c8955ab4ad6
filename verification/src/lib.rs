//! The verified core of CalenPomo: the pomodoro timer's state machine, the
//! vault's file layout, the JSONL framing, the calendar and session selection
//! rules, and the text the command line prints.

pub mod calendar;
pub mod commands;
pub mod days;
pub mod cli;
pub mod error;
pub mod fs_atomic;
pub mod integrations;
pub mod ipc;
pub mod path;
pub mod sessions;
pub mod settings;
pub mod text;
pub mod timer;
pub mod timer_laws;
pub mod vault;
