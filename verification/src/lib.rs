//! Codec for a solar inverter that answers short ASCII commands over a
//! checksummed serial framing, and the parsers that turn its whitespace
//! separated answers into typed values.
//!
//! The library does no input or output and holds no floating-point code.
//! The caller moves the bytes: [`inverter::Request`] gives the frame to send,
//! [`inverter::ResponseReader`] takes the chunks that come back, and
//! [`inverter::read_sensors`] or [`parse::from_str`] reads the decoded text.
//! Where a token is a floating-point number, the caller's conversion is
//! called for it.
//!
//! A command of more than [`frame::MAX_COMMAND_LENGTH`] bytes is refused when
//! its frame is built; [`frame::encode_frame`] builds a frame for a payload of
//! any length. Sensors are read leniently, a record strictly: a sensor without
//! a token is left out, a field without a token is a failure.

pub mod checksum;
pub mod config;
pub mod errors;
pub mod frame;
pub mod hass;
pub mod inverter;
pub mod lexical;
pub mod parse;
pub mod tokens;
