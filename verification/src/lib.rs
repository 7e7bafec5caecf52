//! The decisions, formats and state machines of the cbar desktop bar and of its
//! matrix launcher. Everything here works on plain values; windows, sockets,
//! files, processes and timers belong to the application around it.

pub mod appset;
pub mod bytes;
pub mod capture;
pub mod column;
pub mod compositor;
pub mod config;
pub mod config_change;
pub mod desktop;
pub mod digest;
pub mod icons;
pub mod inventory;
pub mod ipc;
pub mod json;
pub mod launch;
pub mod materialize;
pub mod navigation;
pub mod preparation;
pub mod prepared;
pub mod provider;
pub mod screen;
pub mod stream;
pub mod style;
pub mod sway;
pub mod sway_commands;
pub mod sway_parser;
pub mod text;
pub mod watch;
