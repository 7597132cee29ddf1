//! Control of a GPON home router through its web administration pages.
//!
//! The library builds the exact HTTP requests the router expects and reads
//! the router's state out of the HTML it answers with. Sockets, the command
//! line and console output are left to the caller.

pub mod client;
pub mod scrape;
pub mod mac;
pub mod commandline;
pub mod router;
pub mod session;
