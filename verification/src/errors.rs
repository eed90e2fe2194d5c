//! What can go wrong while a command is exchanged with the inverter.

use core::num::{ParseFloatError, ParseIntError};
use core::str::Utf8Error;
use vstd::prelude::*;

verus! {

/// `rusb::Error`, the failure that the USB transport reports. The library
/// only carries it from the transport to the caller.
#[verifier::external_type_specification]
#[verifier::external_body]
pub struct ExUsbError(rusb::Error);

/// `core::str::Utf8Error`, carried from the UTF-8 check to the caller.
#[verifier::external_type_specification]
#[verifier::external_body]
pub struct ExUtf8Error(core::str::Utf8Error);

/// `core::num::ParseIntError`, carried from the integer conversion to the
/// caller.
#[verifier::external_type_specification]
#[verifier::external_body]
pub struct ExParseIntError(core::num::ParseIntError);

/// `core::num::ParseFloatError`, carried from the caller's floating-point
/// conversion back to the caller.
#[verifier::external_type_specification]
#[verifier::external_body]
pub struct ExParseFloatError(core::num::ParseFloatError);

/// A failure of the transport.
#[derive(Debug, PartialEq)]
pub enum DeviceError {
    Usb { source: rusb::Error },
}

/// A token of the response that does not convert to the declared type.
#[allow(inconsistent_fields)]
#[derive(Debug, PartialEq)]
pub enum ParseResponseError {
    ExpectedFloat { sensor: String, source: ParseFloatError },
    ExpectedInteger { sensor: String, source: ParseIntError },
}

/// A failed command.
#[allow(inconsistent_fields)]
#[derive(Debug, PartialEq)]
pub enum InverterError {
    /// The transport failed while sending or reading.
    Device { source: DeviceError },
    /// The command does not fit into one request frame.
    CommandTooLong { cmd: String },
    /// The response does not begin with the start marker.
    MissingResponseMarker,
    /// The payload of the response is not UTF-8.
    ExpectedUtf8 { source: Utf8Error },
    /// A token of the response does not convert to its sensor's type.
    ParseResponse { source: ParseResponseError },
    /// The checksum of the response does not match. `expected` is the
    /// checksum computed over `data`, `actual` the one that was received.
    InvalidCrc { expected: String, actual: String, data: String },
}

/// [`ParseResponseError`] with its text as character sequences.
#[allow(inconsistent_fields)]
pub enum ParseResponseErrorView {
    ExpectedFloat { sensor: Seq<char>, source: ParseFloatError },
    ExpectedInteger { sensor: Seq<char>, source: ParseIntError },
}

impl View for ParseResponseError {
    type V = ParseResponseErrorView;

    open spec fn view(&self) -> ParseResponseErrorView {
        match *self {
            ParseResponseError::ExpectedFloat { sensor, source } => {
                ParseResponseErrorView::ExpectedFloat { sensor: sensor@, source }
            },
            ParseResponseError::ExpectedInteger { sensor, source } => {
                ParseResponseErrorView::ExpectedInteger { sensor: sensor@, source }
            },
        }
    }
}

/// [`InverterError`] with its text as character sequences.
#[allow(inconsistent_fields)]
pub enum InverterErrorView {
    Device { source: DeviceError },
    CommandTooLong { cmd: Seq<char> },
    MissingResponseMarker,
    ExpectedUtf8 { source: Utf8Error },
    ParseResponse { source: ParseResponseErrorView },
    InvalidCrc { expected: Seq<char>, actual: Seq<char>, data: Seq<char> },
}

impl View for InverterError {
    type V = InverterErrorView;

    open spec fn view(&self) -> InverterErrorView {
        match *self {
            InverterError::Device { source } => InverterErrorView::Device { source },
            InverterError::CommandTooLong { cmd } => InverterErrorView::CommandTooLong {
                cmd: cmd@,
            },
            InverterError::MissingResponseMarker => InverterErrorView::MissingResponseMarker,
            InverterError::ExpectedUtf8 { source } => InverterErrorView::ExpectedUtf8 { source },
            InverterError::ParseResponse { source } => InverterErrorView::ParseResponse {
                source: source@,
            },
            InverterError::InvalidCrc { expected, actual, data } => InverterErrorView::InvalidCrc {
                expected: expected@,
                actual: actual@,
                data: data@,
            },
        }
    }
}

} // verus!
