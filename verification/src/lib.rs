//! Verified core of the convenience-tools desktop helper: interval parsing and
//! formatting, configuration rules, the folder synchronisation engine's decisions,
//! log rolling rules, guest-disk selection logic, the ad-window scanner and the
//! tray menu.

pub mod text;
pub mod interval;
pub mod config;
pub mod sync;
pub mod state;
pub mod logging;
pub mod platform;
pub mod guest;
pub mod guest_copy;
pub mod guest_tree;
pub mod watch;
pub mod paths;
pub mod scanner;
pub mod tray;
pub mod startup;
