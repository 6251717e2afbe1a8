//! Crash-time diagnostics: the verified core of a backtrace printer that maps
//! return addresses to debug information and reconstructs local values.

pub mod address;
pub mod text;
pub mod walker;
pub mod dwarf;
pub mod search;
pub mod capture;
pub mod controller;
pub mod values;
pub mod display;
pub mod location;
pub mod report;
