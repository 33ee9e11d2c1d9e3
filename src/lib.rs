//! Core of a terminal viewer for streamed text: framing of the input stream
//! into records, the main loop's state machine and the shared display
//! buffer, and the plain configuration values that the widgets read.

pub mod config;
pub mod framing;
pub mod event;
pub mod input;
pub mod main_loop;
pub mod reader;
pub mod series;
