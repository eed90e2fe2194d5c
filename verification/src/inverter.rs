//! One command exchanged with the inverter: the request that goes out, the
//! chunks that come back, and the sensor values that the response holds.
//!
//! The library does no input or output. The caller sends the frame of a
//! [`Request`], reports how that went, then reads chunk after chunk and hands
//! each to the [`ResponseReader`] until the response is complete.

use crate::config::{SensorConfig, ValueType};
pub use crate::errors::{DeviceError, InverterError, ParseResponseError};
use crate::errors::ParseResponseErrorView;
pub use crate::frame::MAX_COMMAND_LENGTH;
use crate::frame::{
    append_chunk, chunk_ends_response, decode_response, decodes_to, encode_command, encoded_frame,
    with_chunk,
};
use crate::lexical::{decimal_in_range, float_answer, integer_failure, parse_i64};
use crate::tokens::{tokenize, tokens};
use core::num::ParseFloatError;
use vstd::hash_map::StringHashMap;
use vstd::prelude::*;
use vstd::string::StringSliceAdditionalSpecFns;
use vstd::utf8::decode_utf8;

verus! {

/// The value of a sensor. `F` is the caller's floating-point type.
#[derive(Debug, Clone, PartialEq)]
pub enum SensorValue<F> {
    Integer(i64),
    Float(F),
    String(String),
}

/// [`SensorValue`] with its text as a character sequence.
pub enum SensorValueView<F> {
    Integer(i64),
    Float(F),
    String(Seq<char>),
}

impl<F> View for SensorValue<F> {
    type V = SensorValueView<F>;

    open spec fn view(&self) -> SensorValueView<F> {
        match *self {
            SensorValue::Integer(v) => SensorValueView::Integer(v),
            SensorValue::Float(v) => SensorValueView::Float(v),
            SensorValue::String(v) => SensorValueView::String(v@),
        }
    }
}

/// Whether `r` is what reading `token` for `sensor` gives.
///
/// An integer sensor takes a decimal integer that fits 64 bits, a
/// floating-point sensor what the caller's conversion accepts, a string
/// sensor any token. A failure names the sensor; a failed floating-point
/// conversion also carries what the caller's conversion reported.
pub open spec fn reads_as<F, P: Fn(&str) -> Result<F, ParseFloatError>>(
    sensor: SensorConfig,
    token: Seq<u8>,
    parse_float: P,
    r: Result<SensorValue<F>, ParseResponseError>,
) -> bool {
    match sensor.value_type {
        ValueType::Integer => match decimal_in_range(
            token,
            true,
            i64::MIN as int,
            i64::MAX as int,
        ) {
            Some(v) => r == Ok::<SensorValue<F>, ParseResponseError>(
                SensorValue::Integer(v as i64),
            ),
            None => r matches Err(e) && e@ == (ParseResponseErrorView::ExpectedInteger {
                sensor: sensor.name@,
                source: integer_failure(token, true, 64),
            }),
        },
        ValueType::Float => match r {
            Ok(SensorValue::Float(v)) => float_answer(parse_float, token, Ok(v)),
            Err(ParseResponseError::ExpectedFloat { sensor: name, source }) => name@
                == sensor.name@ && float_answer(parse_float, token, Err(source)),
            _ => false,
        },
        ValueType::String => r matches Ok(SensorValue::String(text)) && text@ == decode_utf8(
            token,
        ),
    }
}

/// Whether reading `token` for `sensor` gives a value.
pub open spec fn read_succeeds<F, P: Fn(&str) -> Result<F, ParseFloatError>>(
    sensor: SensorConfig,
    token: Seq<u8>,
    parse_float: P,
) -> bool {
    exists|value: SensorValue<F>| #[trigger]
        reads_as(sensor, token, parse_float, Ok::<SensorValue<F>, ParseResponseError>(value))
}

/// The position of the last of the first `count` sensors that is reported
/// under `name`; `-1` if there is none.
pub open spec fn last_reported(
    sensors: Seq<Option<SensorConfig>>,
    count: int,
    name: Seq<char>,
) -> int
    decreases count,
{
    if count <= 0 {
        -1
    } else if sensors[count - 1] matches Some(sensor) && sensor.name@ == name {
        count - 1
    } else {
        last_reported(sensors, count - 1, name)
    }
}

/// The number of sensors that get a token: sensors and tokens are paired in
/// order, and what is left over on either side is dropped.
pub open spec fn paired(sensors: Seq<Option<SensorConfig>>, tokens: Seq<Seq<u8>>) -> int {
    if sensors.len() <= tokens.len() {
        sensors.len() as int
    } else {
        tokens.len() as int
    }
}

/// Whether `r` is what reading the sensors from the tokens gives.
///
/// The tokens are read in order. The first token that does not convert ends
/// the reading with its failure. Otherwise every sensor that got a token is
/// reported under its name, with the value of the last token that belongs to
/// that name.
pub open spec fn sensors_read_as<F, P: Fn(&str) -> Result<F, ParseFloatError>>(
    sensors: Seq<Option<SensorConfig>>,
    tokens: Seq<Seq<u8>>,
    parse_float: P,
    r: Result<StringHashMap<SensorValue<F>>, InverterError>,
) -> bool {
    let count = paired(sensors, tokens);
    match r {
        Ok(readings) => {
            &&& forall|i: int|
                0 <= i < count && sensors[i] is Some ==> read_succeeds::<F, P>(
                    #[trigger] sensors[i]->0,
                    tokens[i],
                    parse_float,
                )
            &&& forall|name: Seq<char>| #[trigger]
                readings@.contains_key(name) <==> last_reported(sensors, count, name) >= 0
            &&& forall|name: Seq<char>| #[trigger]
                readings@.contains_key(name) ==> reads_as(
                    sensors[last_reported(sensors, count, name)]->0,
                    tokens[last_reported(sensors, count, name)],
                    parse_float,
                    Ok(readings@[name]),
                )
        },
        Err(InverterError::ParseResponse { source }) => exists|at: int|
            {
                &&& 0 <= at < count
                &&& sensors[at] is Some
                &&& #[trigger] reads_as::<F, P>(
                    sensors[at]->0,
                    tokens[at],
                    parse_float,
                    Err(source),
                )
                &&& forall|i: int|
                    0 <= i < at && sensors[i] is Some ==> read_succeeds::<F, P>(
                        #[trigger] sensors[i]->0,
                        tokens[i],
                        parse_float,
                    )
            },
        Err(_) => false,
    }
}

/// Reads one token as the value of `sensor`.
pub fn read_sensor<F, P: Fn(&str) -> Result<F, ParseFloatError>>(
    sensor: &SensorConfig,
    token: &str,
    parse_float: &P,
) -> (r: Result<SensorValue<F>, ParseResponseError>)
    requires
        call_requires(*parse_float, (token,)),
    ensures
        reads_as(*sensor, token.spec_bytes(), *parse_float, r),
{
    match sensor.value_type {
        ValueType::Integer => match parse_i64(token) {
            Ok(v) => Ok(SensorValue::Integer(v)),
            Err(source) => Err(
                ParseResponseError::ExpectedInteger { sensor: sensor.name.clone(), source },
            ),
        },
        ValueType::Float => match parse_float(token) {
            Ok(v) => Ok(SensorValue::Float(v)),
            Err(source) => Err(
                ParseResponseError::ExpectedFloat { sensor: sensor.name.clone(), source },
            ),
        },
        ValueType::String => {
            proof {
                vstd::utf8::encode_utf8_decode_utf8(token@);
            }
            Ok(SensorValue::String(token.to_owned()))
        },
    }
}

/// Reads the sensors of a command from its response.
///
/// The tokens of the response are paired with `sensors` in order. A token
/// whose sensor is `None` is passed over unread; tokens without a sensor and
/// sensors without a token are dropped. `parse_float` converts the token of a
/// floating-point sensor.
pub fn read_sensors<F, P: Fn(&str) -> Result<F, ParseFloatError>>(
    sensors: &[Option<SensorConfig>],
    response: &str,
    parse_float: &P,
) -> (r: Result<StringHashMap<SensorValue<F>>, InverterError>)
    requires
        forall|text: &str| call_requires(*parse_float, (text,)),
    ensures
        sensors_read_as(sensors@, tokens(response.spec_bytes()), *parse_float, r),
{
    let found = tokenize(response);
    let ghost all = tokens(response.spec_bytes());
    let count = if sensors.len() <= found.len() {
        sensors.len()
    } else {
        found.len()
    };
    let mut readings: StringHashMap<SensorValue<F>> = StringHashMap::new();
    let mut at: usize = 0;
    while at < count
        invariant
            at <= count,
            all == tokens(response.spec_bytes()),
            count == paired(sensors@, all),
            found@.len() == all.len(),
            forall|i: int| 0 <= i < found@.len() ==> (#[trigger] found@[i]).spec_bytes() == all[i],
            forall|text: &str| call_requires(*parse_float, (text,)),
            forall|i: int|
                0 <= i < at && sensors@[i] is Some ==> read_succeeds::<F, P>(
                    #[trigger] sensors@[i]->0,
                    all[i],
                    *parse_float,
                ),
            forall|name: Seq<char>| #[trigger]
                readings@.contains_key(name) <==> last_reported(sensors@, at as int, name) >= 0,
            forall|name: Seq<char>| #[trigger]
                readings@.contains_key(name) ==> reads_as(
                    sensors@[last_reported(sensors@, at as int, name)]->0,
                    all[last_reported(sensors@, at as int, name)],
                    *parse_float,
                    Ok(readings@[name]),
                ),
        decreases count - at,
    {
        match &sensors[at] {
            Some(sensor) => {
                let token: &str = found[at];
                match read_sensor(sensor, token, parse_float) {
                    Ok(value) => {
                        let ghost before = readings@;
                        let ghost shown = value;
                        readings.insert(sensor.name.clone(), value);
                        proof {
                            assert(reads_as(
                                *sensor,
                                all[at as int],
                                *parse_float,
                                Ok::<SensorValue<F>, ParseResponseError>(shown),
                            ));
                            assert forall|name: Seq<char>| #[trigger]
                                readings@.contains_key(name) implies reads_as(
                                sensors@[last_reported(sensors@, at + 1, name)]->0,
                                all[last_reported(sensors@, at + 1, name)],
                                *parse_float,
                                Ok(readings@[name]),
                            ) by {
                                if name != sensor.name@ {
                                    assert(before.contains_key(name));
                                }
                            }
                        }
                    },
                    Err(source) => {
                        proof {
                            assert(sensors@[at as int] == Some(*sensor));
                            assert(reads_as::<F, P>(
                                sensors@[at as int]->0,
                                all[at as int],
                                *parse_float,
                                Err(source),
                            ));
                        }
                        return Err(InverterError::ParseResponse { source });
                    },
                }
            },
            None => {},
        }
        at = at + 1;
    }
    Ok(readings)
}

/// A command on its way out: the frame to send.
pub struct Request {
    frame: Vec<u8>,
}

/// A response on its way in: what has been received of it.
pub struct ResponseReader {
    received: Vec<u8>,
}

/// Where a response stands after a chunk.
pub enum Reading {
    /// The response goes on: read another chunk.
    Partial(ResponseReader),
    /// The response is complete: this is its text.
    Complete(String),
}

impl Request {
    /// The frame to send.
    pub closed spec fn frame_bytes(&self) -> Seq<u8> {
        self.frame@
    }

    /// Begins the exchange of a command, or refuses a command of more than
    /// [`MAX_COMMAND_LENGTH`] bytes.
    pub fn new(cmd: &str) -> (r: Result<Request, InverterError>)
        ensures
            match r {
                Ok(request) => {
                    &&& cmd.spec_bytes().len() <= MAX_COMMAND_LENGTH
                    &&& request.frame_bytes() == encoded_frame(cmd.spec_bytes())
                },
                Err(InverterError::CommandTooLong { cmd: refused }) => {
                    &&& cmd.spec_bytes().len() > MAX_COMMAND_LENGTH
                    &&& refused@ == cmd@
                },
                Err(_) => false,
            },
    {
        match encode_command(cmd) {
            Ok(frame) => Ok(Request { frame }),
            Err(e) => Err(e),
        }
    }

    /// The frame to send.
    pub fn frame(&self) -> (frame: &[u8])
        ensures
            frame@ == self.frame_bytes(),
    {
        self.frame.as_slice()
    }

    /// Takes the outcome of sending the frame. After a frame that was sent
    /// the response is read from its beginning; a failure of the transport
    /// ends the exchange.
    pub fn sent(self, outcome: Result<usize, DeviceError>) -> (r: Result<
        ResponseReader,
        InverterError,
    >)
        ensures
            match outcome {
                Ok(_) => r matches Ok(reader) && reader.received_bytes() == Seq::<u8>::empty(),
                Err(failure) => r == Err::<ResponseReader, InverterError>(
                    InverterError::Device { source: failure },
                ),
            },
    {
        match outcome {
            Ok(_) => Ok(ResponseReader { received: Vec::new() }),
            Err(source) => Err(InverterError::Device { source }),
        }
    }
}

impl ResponseReader {
    /// What has been received of the response.
    pub closed spec fn received_bytes(&self) -> Seq<u8> {
        self.received@
    }

    /// Takes the outcome of reading a chunk.
    ///
    /// A chunk joins what has been received. If it is the last one, the
    /// response is checked and decoded, and the exchange ends with its text
    /// or with the reason for which it was rejected. A failure of the
    /// transport ends the exchange as well.
    pub fn received(self, outcome: Result<&[u8], DeviceError>) -> (r: Result<
        Reading,
        InverterError,
    >)
        ensures
            match outcome {
                Ok(chunk) => {
                    let response = with_chunk(self.received_bytes(), chunk@);
                    if chunk_ends_response(chunk@) {
                        match r {
                            Ok(Reading::Complete(text)) => decodes_to(response, Ok(text)),
                            Ok(Reading::Partial(_)) => false,
                            Err(e) => decodes_to(response, Err(e)),
                        }
                    } else {
                        r matches Ok(Reading::Partial(reader)) && reader.received_bytes()
                            == response
                    }
                },
                Err(failure) => r == Err::<Reading, InverterError>(
                    InverterError::Device { source: failure },
                ),
            },
    {
        match outcome {
            Ok(chunk) => {
                let mut received = self.received;
                if append_chunk(&mut received, chunk) {
                    match decode_response(received.as_slice()) {
                        Ok(text) => Ok(Reading::Complete(text)),
                        Err(e) => Err(e),
                    }
                } else {
                    Ok(Reading::Partial(ResponseReader { received }))
                }
            },
            Err(source) => Err(InverterError::Device { source }),
        }
    }
}

} // verus!
