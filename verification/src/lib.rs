//! Core logic of a converter that knows which DJ players will take a track.
//!
//! Everything that decides what to do lives here: the compatibility table,
//! the checks against it, the plan for a conversion, where results land and
//! what a drive holds. The command line is a thin shell over this crate.

pub mod device;
pub mod text;
pub mod compat;

pub mod plan;
pub mod laws;
pub mod probe;
pub mod path;
pub mod files;
pub mod scan;
pub mod usb;
pub mod convert;
pub mod report;
pub mod tools;
pub mod order;
pub mod window;
