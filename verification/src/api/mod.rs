//! Talking to Moonraker and Spoolman: what is sent and what the replies mean.
pub mod websocket;
pub mod rest;
pub mod spoolman;
