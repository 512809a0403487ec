//! Keyboard and mouse macros: a compiler from declarative scripts to flat
//! instruction programs, and the trigger-driven scheduler that decides when a
//! script starts or stops.
pub mod config;
pub mod event;
pub mod script;
pub mod start;
