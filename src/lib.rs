//! Telemetry sampling and packet encoding for a USB HID CPU status display.
//!
//! The library holds the decisions of the sampling pipeline: how raw kernel
//! readings are parsed and turned into metrics, and how a sample is laid out
//! in the fixed 64-byte status packet. Reading files, sleeping and writing to
//! the device are left to the caller.

pub mod text;
pub mod cpu;
pub mod display;
