//! Interactive APRS messaging client for Direwolf (KISS) or APRS-IS.

pub mod action;
pub mod aprs;
pub mod ax25;
pub mod base64;
pub mod bridge;
pub mod cli;
pub mod client;
pub mod client_laws;
pub mod clock;
pub mod decode;
pub mod digis;
pub mod encoding;
pub mod heard;
pub mod kiss;
pub mod link;
pub mod mic_e;
pub mod numeral;
pub mod position;
pub mod seen;
pub mod session;
pub mod split;
pub mod symbols;
pub mod table;
pub mod text;
pub mod ui;

pub use client::{Action, Client, ClientConfig, UiMsg, COMMANDS};
pub use heard::{passcode, Heard, Hop};
