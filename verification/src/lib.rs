//! The logic of a desktop shell that shows a web interface in tabs of its own.
//!
//! One window holds a tab bar and one webview for each tab, of which one is visible. The
//! crate keeps the registry of windows and tabs ([`state`]) and decides what each event
//! leads to: which tab comes to the front ([`tabs`]), how a new tab is made and which data
//! partition it gets ([`newtab`]), what the tab bar shows ([`titles`], [`profiles`],
//! [`windows`]), where things stand ([`layout`], [`frame`]), what is saved and brought back
//! ([`session`]), and what menus and window events do ([`events`]). Release notes
//! ([`changelog`]) and the choice of platform paths ([`platform`]) are decided here too.
//!
//! No function touches a window or a webview. What is to be done comes back as a list of
//! steps ([`effect`]) for the caller to perform, and what only the caller can know, such as
//! whether a window still exists, comes in as an argument. The contract of each operation
//! equates the new state and the steps with a function of the old state.
//!
//! What each operation does to the registry and tells the shell is proved in [`conduct`],
//! [`reports`], [`planning`], [`saving`], [`placing`] and [`wording`], and that the models
//! show the values they stand for in [`mirrors`]. What holds across operations is proved in
//! [`laws`], [`screen`], [`jars`] and [`restoring`].

#![allow(unused_imports)]

pub mod address;
pub mod changelog;
pub mod conduct;
pub mod effect;
pub mod events;
pub mod frame;
pub mod jars;
pub mod label;
pub mod laws;
pub mod layout;
pub mod mirrors;
pub mod newtab;
pub mod placing;
pub mod planning;
pub mod platform;
pub mod profiles;
pub mod registry;
pub mod reports;
pub mod restoring;
pub mod saving;
pub mod screen;
pub mod session;
pub mod state;
pub mod tabs;
pub mod text;
pub mod titles;
pub mod windows;
pub mod wording;
