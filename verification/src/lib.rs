//! A verified gateway between HTTP callers and a device: it addresses the
//! device's file areas by category and relative path, and it drives the
//! exchange that asks the device to build a package.

pub mod config;
pub mod encoding;
pub mod exchange;
pub mod file;
pub mod filelist;
pub mod package;
pub mod path;
pub mod status;
pub mod text;
pub mod uri;
