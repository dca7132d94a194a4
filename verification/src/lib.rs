//! Verified logic of a small GTK/GStreamer video player: which files count
//! as videos, how a folder's videos are ordered and browsed, how playback
//! times and stream details are rendered, what settings are restored, and
//! how the player reacts to user and pipeline events.

pub mod clock;
pub mod config;
pub mod controls;
pub mod folder;
pub mod order;
pub mod paths;
pub mod session;
pub mod streams;
pub mod text;
pub mod videos;
