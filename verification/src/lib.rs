//! A terminal client for Misskey timelines: the state of the screen, the keys
//! that change it, and the text that it shows.
//!
//! Everything in this library is plain computation. Reading keys, talking to the
//! server, opening the account store and drawing on the terminal are left to the
//! program around it.

pub mod app;
pub mod command;
pub mod layout;
pub mod list;
pub mod login;
pub mod note;
pub mod paths;
pub mod style;
pub mod text;
pub mod timeline;
pub mod wrap;
