//! The plain data the exchange sends and receives.
pub mod accounts;
pub mod orders;
pub mod websocket;
