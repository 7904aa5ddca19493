//! A small container runtime: path layout, PID records, registry challenge
//! parsing, image platform selection, overlay assembly and lifecycle decisions.

pub mod challenge;
pub mod layout;
pub mod lifecycle;
pub mod manifest;
pub mod overlay;
pub mod pid;
pub mod reference;
pub mod store;
