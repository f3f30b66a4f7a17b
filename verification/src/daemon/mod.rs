//! The clipboard daemon: what it decides, event by event. Reading, writing and
//! waiting are left to the caller.

pub mod clip;
pub mod events;
pub mod handler;
pub mod http;
pub mod status;
pub mod tray;
pub mod trigger;
pub mod uds;
pub mod watcher;
