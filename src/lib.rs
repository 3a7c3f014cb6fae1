//! Command interpreter and timing engine for a single-pin tone and Morse device.
//!
//! Bytes written to a [`session::Session`] are buffered until a newline completes a
//! line; each complete line is parsed into tone requests and pauses
//! ([`command::Step`]), and a [`player::Player`] turns those into the exact
//! sequence of pin toggles and sleeps ([`tone::Action`]) that drives the hardware.
pub mod text;
pub mod morse;
pub mod tone;
pub mod command;
pub mod session;
pub mod player;
