//! Decision logic of a TV-device manager: version comparison for
//! self-update checks, and the outcome and message rules of its ADB
//! (Android Debug Bridge) commands.

pub mod text;
pub mod numeric;
pub mod version;
pub mod update;
pub mod adb;
pub mod install;
pub mod scan;
