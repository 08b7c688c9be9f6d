//! The decision core of a command line tool that browses, compares, exports and
//! curates coding-assistant sessions.
//!
//! Everything here works on plain values that were already read from disk, and gives
//! back plain values that are ready to be printed or written.
#![allow(unused_imports)]
#![allow(dead_code)]

pub mod commands;
pub mod error;
pub mod host;
pub mod json;
pub mod model;
pub mod names;
pub mod order;
pub mod patterns;
pub mod provider;
pub mod text;
pub mod time;
