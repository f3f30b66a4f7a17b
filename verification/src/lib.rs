//! Chinese and English: an offline dictionary, translation engines, and a
//! clipboard daemon that brings them together.
//!
//! Every decision of the program is made here and proved here. Files, network,
//! clipboard and windows are left to the program around the library, which
//! performs the steps that the library asks for and hands back what happened.

pub mod addr;
pub mod cli;
pub mod config;
pub mod daemon;
pub mod dict;
pub mod document;
pub mod engine;
pub mod history;
pub mod ipc;
pub mod json;
pub mod lang;
pub mod loopguard;
pub mod paths;
pub mod pipeline;
pub mod reading;
pub mod router;
pub mod testing;
pub mod text;
pub mod tts;
pub mod wire;

use vstd::prelude::*;

verus! {

/// The version of the program.
pub const VERSION: &'static str = "0.1.0";

} // verus!
