//! Matches TV episodes with their external audio and subtitle tracks and
//! prepares per-episode launch scripts for a video player.

pub mod text;
pub mod number;
pub mod paths;
pub mod os;
pub mod pattern;
pub mod fs_access;
pub mod media_scan;
pub mod players;
pub mod app;
pub mod fixture;
