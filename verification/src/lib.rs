//! Decision logic of a headset-driven default-audio-output switcher.
//!
//! The library decodes HID input reports of a wireless headset receiver,
//! decides which audio-endpoint operations follow from a power-on or
//! power-off report, keeps the record of the defaults it replaced, and
//! plans log output. Everything that talks to the operating system lives
//! with the caller, which performs the commands this library hands out.

pub mod app;
pub mod audio;
pub mod cli;
pub mod config;
pub mod cycle;
pub mod hid;
pub mod launch;
pub mod log;
pub mod state;
pub mod text;
