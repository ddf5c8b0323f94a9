//! PortalKeeper keeps the lines of a router signed in to the portal of a campus network.
//!
//! A line is probed; a portal that holds it redirects the probe. The login page is fetched from that
//! very address, its form is filled in and sent back to it, and a further probe decides whether the
//! line is through. The library holds every decision of that; requests, files and signals are left
//! to the program around it.

pub mod agent;
pub mod auth;
pub mod bytes;
pub mod charset;
pub mod cli;
pub mod clock;
pub mod daemon;
pub mod detect;
pub mod encode;
pub mod forms;
pub mod http;
pub mod json;
pub mod logging;
pub mod login;
pub mod net;
pub mod notes;
pub mod number;
pub mod pages;
pub mod probe;
pub mod request;
pub mod round;
pub mod settings;
pub mod split;
pub mod status;
pub mod table;
pub mod text;
pub mod uci;
pub mod urls;
