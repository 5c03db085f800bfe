use vstd::prelude::*;

pub mod strs;
pub mod i18n;
pub mod codec;
pub mod config;
pub mod queue_file;
pub mod session;
pub mod util;
pub mod display;
pub mod terminal;
pub mod send;
pub mod terminal_input;
pub mod ansi;
pub mod terminal_view;
pub mod status;
pub mod receive;
pub mod panels;
pub mod ports;
pub mod laws;

verus! {

} // verus!
