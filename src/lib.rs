//! Switches which display-output block of a window-manager configuration is
//! active: the marked section of the file is parsed into records, one record
//! is enabled, and the section is written back with the others commented out.

pub mod text;
pub mod header;
pub mod config;
pub mod section;
pub mod selection;
pub mod laws;
