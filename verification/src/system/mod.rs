//! The system around the front end: Wi-Fi, desktop notifications, screen
//! power and translations.
pub mod display;
pub mod l10n;
pub mod network;
pub mod notifications;
pub mod power;
