//! Configuration: INI documents, the cascade of configuration files, and menus.
pub mod ini_model;
pub mod parser;
pub mod menu;
