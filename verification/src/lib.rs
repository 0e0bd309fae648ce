//! Core logic of a touchscreen front end for Klipper printers.

pub mod api;
pub mod config;
pub mod json;
pub mod printer;
pub mod system;
pub mod text;
