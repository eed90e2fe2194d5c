//! The wire format: request frames, and responses reassembled from the
//! fixed-size chunks in which the transport delivers them.
//!
//! A request is the command's bytes, their checksum with the high byte first,
//! a carriage return, and zero bytes up to the minimum frame length. A
//! response is a start marker, the payload, the checksum of both, and a
//! carriage return; it arrives in chunks that are padded with zero bytes.

use crate::checksum::{
    be16, be16_value, calc_crc, crc16_xmodem, lemma_checksum_self_verifies,
    lemma_nonzero_start_needs_three_bytes, lemma_zero_checksum_iff_trailer_matches,
};
use crate::errors::{InverterError, InverterErrorView};
use core::str::Utf8Error;
use vstd::prelude::*;
use vstd::slice::slice_subrange;
use vstd::string::{StringExecFns, StringSliceAdditionalSpecFns};
use vstd::utf8::{
    decode_utf8, encode_utf8, encode_utf8_decode_utf8, encode_utf8_valid_utf8, valid_utf8,
};

verus! {

/// The longest command that fits into one request frame, in bytes.
pub const MAX_COMMAND_LENGTH: usize = 5;

/// The byte that opens every response: `(`.
pub const START_RESPONSE_MARKER: u8 = 0x28;

/// The byte that closes every frame: carriage return.
pub const END_RESPONSE_MARKER: u8 = 0x0D;

/// No frame is sent shorter than this.
pub const MIN_FRAME_LENGTH: usize = 8;

/// The transport delivers a response in chunks of this many bytes.
pub const CHUNK_LENGTH: usize = 8;

/// `bytes` followed by as many zero bytes as it lacks to `length`.
pub open spec fn zero_padded(bytes: Seq<u8>, length: nat) -> Seq<u8> {
    if bytes.len() >= length {
        bytes
    } else {
        bytes + Seq::new((length - bytes.len()) as nat, |i: int| 0u8)
    }
}

/// The request frame that carries `payload`.
pub open spec fn encoded_frame(payload: Seq<u8>) -> Seq<u8> {
    zero_padded(
        payload + be16(crc16_xmodem(payload)) + seq![END_RESPONSE_MARKER],
        MIN_FRAME_LENGTH as nat,
    )
}

/// `bytes` without the zero bytes at its end.
pub open spec fn trim_trailing_zeros(bytes: Seq<u8>) -> Seq<u8>
    decreases bytes.len(),
{
    if bytes.len() > 0 && bytes.last() == 0 {
        trim_trailing_zeros(bytes.drop_last())
    } else {
        bytes
    }
}

/// Whether a chunk is the last of its response: without its padding it ends
/// in the end marker.
pub open spec fn chunk_ends_response(chunk: Seq<u8>) -> bool {
    let trimmed = trim_trailing_zeros(chunk);
    trimmed.len() > 0 && trimmed.last() == END_RESPONSE_MARKER
}

/// What has been received of a response once `chunk` has arrived as well: the
/// chunk joins without its padding, and without the end marker if it is the
/// last one.
pub open spec fn with_chunk(received: Seq<u8>, chunk: Seq<u8>) -> Seq<u8> {
    let trimmed = trim_trailing_zeros(chunk);
    if chunk_ends_response(chunk) {
        received + trimmed.drop_last()
    } else {
        received + trimmed
    }
}

/// Whether a reassembled response begins with the start marker.
pub open spec fn has_start_marker(response: Seq<u8>) -> bool {
    response.len() > 0 && response[0] == START_RESPONSE_MARKER
}

/// The part of a reassembled response that its checksum was computed over:
/// all but the last two bytes.
pub open spec fn checked_part(response: Seq<u8>) -> Seq<u8> {
    if response.len() >= 2 {
        response.subrange(0, response.len() - 2)
    } else {
        Seq::empty()
    }
}

/// The checksum that a reassembled response carries in its last two bytes,
/// high byte first. A response of fewer than two bytes has its bytes read as
/// the low end of that value.
pub open spec fn stored_checksum(response: Seq<u8>) -> u16 {
    if response.len() >= 2 {
        be16_value(response[response.len() - 2], response[response.len() - 1])
    } else if response.len() == 1 {
        response[0] as u16
    } else {
        0
    }
}

/// The payload of a reassembled response: what stands between the start
/// marker and the checksum.
pub open spec fn response_payload(response: Seq<u8>) -> Seq<u8> {
    response.subrange(1, response.len() - 2)
}

/// The hexadecimal digit, in lower case, of a value below sixteen.
pub open spec fn hex_digit(nibble: u16) -> char {
    if nibble < 10 {
        (0x30 + nibble) as char
    } else {
        (0x57 + nibble) as char
    }
}

/// A 16-bit value as `0x` and four hexadecimal digits in lower case.
pub open spec fn hex16(value: u16) -> Seq<char> {
    seq![
        '0',
        'x',
        hex_digit(value >> 12),
        hex_digit((value >> 8) & 0xf),
        hex_digit((value >> 4) & 0xf),
        hex_digit(value & 0xf),
    ]
}

/// The text that `String::from_utf8_lossy` makes of a byte sequence.
pub uninterp spec fn utf8_lossy(bytes: Seq<u8>) -> Seq<char>;

/// The failure that `core::str::from_utf8` reports for a byte sequence that
/// is not UTF-8.
pub uninterp spec fn utf8_failure(bytes: Seq<u8>) -> Utf8Error;

/// The hexadecimal digit, in lower case, of a value below sixteen.
fn hex_digit_text(nibble: u16) -> (text: &'static str)
    requires
        nibble < 16,
    ensures
        text@ == seq![hex_digit(nibble)],
{
    proof {
        reveal_strlit("0");
        reveal_strlit("1");
        reveal_strlit("2");
        reveal_strlit("3");
        reveal_strlit("4");
        reveal_strlit("5");
        reveal_strlit("6");
        reveal_strlit("7");
        reveal_strlit("8");
        reveal_strlit("9");
        reveal_strlit("a");
        reveal_strlit("b");
        reveal_strlit("c");
        reveal_strlit("d");
        reveal_strlit("e");
        reveal_strlit("f");
    }
    let text = if nibble == 0 {
        "0"
    } else if nibble == 1 {
        "1"
    } else if nibble == 2 {
        "2"
    } else if nibble == 3 {
        "3"
    } else if nibble == 4 {
        "4"
    } else if nibble == 5 {
        "5"
    } else if nibble == 6 {
        "6"
    } else if nibble == 7 {
        "7"
    } else if nibble == 8 {
        "8"
    } else if nibble == 9 {
        "9"
    } else if nibble == 10 {
        "a"
    } else if nibble == 11 {
        "b"
    } else if nibble == 12 {
        "c"
    } else if nibble == 13 {
        "d"
    } else if nibble == 14 {
        "e"
    } else {
        "f"
    };
    assert(text@ =~= seq![hex_digit(nibble)]);
    text
}

/// Writes a 16-bit value as `0x` and four hexadecimal digits in lower case.
pub fn format_hex16(value: u16) -> (text: String)
    ensures
        text@ == hex16(value),
{
    proof {
        reveal_strlit("0x");
    }
    assert(value >> 12 < 16 && (value >> 8) & 0xf < 16 && (value >> 4) & 0xf < 16 && value & 0xf
        < 16) by (bit_vector);
    let mut text = "0x".to_owned();
    text.append(hex_digit_text(value >> 12));
    text.append(hex_digit_text((value >> 8) & 0xf));
    text.append(hex_digit_text((value >> 4) & 0xf));
    text.append(hex_digit_text(value & 0xf));
    assert(text@ =~= hex16(value));
    text
}

/// Calls `core::str::from_utf8`.
///
/// Trusted: the call is claimed to succeed exactly on well-formed UTF-8, and
/// then to give the text that those bytes encode; its failure is a function
/// of the bytes, named [`utf8_failure`].
#[verifier::external_body]
fn str_from_utf8(bytes: &[u8]) -> (r: Result<&str, Utf8Error>)
    ensures
        r is Ok <==> valid_utf8(bytes@),
        r matches Ok(text) ==> text@ == decode_utf8(bytes@),
        r matches Err(failure) ==> failure == utf8_failure(bytes@),
{
    core::str::from_utf8(bytes)
}

/// Calls `String::from_utf8_lossy`.
///
/// Trusted: the result is a function of the bytes alone, named
/// [`utf8_lossy`]; on well-formed UTF-8 it is claimed to be the text that the
/// bytes encode.
#[verifier::external_body]
fn string_from_utf8_lossy(bytes: &[u8]) -> (text: String)
    ensures
        text@ == utf8_lossy(bytes@),
        valid_utf8(bytes@) ==> text@ == decode_utf8(bytes@),
{
    String::from_utf8_lossy(bytes).into_owned()
}

/// A prefix of `bytes` that does not end in zero and is followed by zeros
/// only is `bytes` without its trailing zeros.
proof fn lemma_trimmed_prefix(bytes: Seq<u8>, kept: int)
    requires
        0 <= kept <= bytes.len(),
        forall|i: int| kept <= i < bytes.len() ==> bytes[i] == 0,
        kept > 0 ==> bytes[kept - 1] != 0,
    ensures
        trim_trailing_zeros(bytes) == bytes.subrange(0, kept),
    decreases bytes.len(),
{
    if kept == bytes.len() {
        assert(bytes.subrange(0, kept) =~= bytes);
    } else {
        lemma_trimmed_prefix(bytes.drop_last(), kept);
        assert(bytes.drop_last().subrange(0, kept) =~= bytes.subrange(0, kept));
    }
}

/// Returns `arr` without the elements at its end for which `f` gives `true`:
/// the longest prefix that is empty or ends in an element for which `f`
/// gives `false`.
pub fn slice_trim_end_matches<T, F: Fn(&T) -> bool>(arr: &[T], f: F) -> (res: &[T])
    requires
        forall|i: int| 0 <= i < arr@.len() ==> call_requires(f, (&arr@[i],)),
    ensures
        res@.len() <= arr@.len(),
        res@ == arr@.subrange(0, res@.len() as int),
        forall|i: int| res@.len() <= i < arr@.len() ==> call_ensures(f, (&arr@[i],), true),
        res@.len() > 0 ==> call_ensures(f, (&arr@[res@.len() - 1],), false),
{
    let mut kept: usize = arr.len();
    let mut trimming = true;
    while trimming && kept > 0
        invariant
            kept <= arr@.len(),
            forall|i: int| 0 <= i < arr@.len() ==> call_requires(f, (&arr@[i],)),
            forall|i: int| kept <= i < arr@.len() ==> call_ensures(f, (&arr@[i],), true),
            !trimming ==> kept > 0 && call_ensures(f, (&arr@[kept - 1],), false),
        decreases kept + (if trimming { 1nat } else { 0nat }),
    {
        if f(&arr[kept - 1]) {
            kept = kept - 1;
        } else {
            trimming = false;
        }
    }
    slice_subrange(arr, 0, kept)
}

/// A chunk without the zero bytes that pad its end.
pub fn trim_chunk(chunk: &[u8]) -> (res: &[u8])
    ensures
        res@ == trim_trailing_zeros(chunk@),
{
    let is_padding = |b: &u8| -> (r: bool)
        ensures
            r == (*b == 0),
        { *b == 0 };
    let res = slice_trim_end_matches(chunk, is_padding);
    proof {
        lemma_trimmed_prefix(chunk@, res@.len() as int);
    }
    res
}

/// Builds the request frame for a payload of any length: the payload, its
/// checksum with the high byte first, the end marker, and zero bytes up to
/// [`MIN_FRAME_LENGTH`].
pub fn encode_frame(payload: &[u8]) -> (frame: Vec<u8>)
    ensures
        frame@ == encoded_frame(payload@),
        frame@.len() >= MIN_FRAME_LENGTH,
        payload@.len() <= MAX_COMMAND_LENGTH ==> frame@.len() == MIN_FRAME_LENGTH,
{
    let crc = calc_crc(payload);
    let mut frame: Vec<u8> = Vec::new();
    frame.extend_from_slice(payload);
    assert(frame@ =~= payload@);
    frame.push((crc >> 8) as u8);
    frame.push((crc & 0xff) as u8);
    frame.push(END_RESPONSE_MARKER);
    let ghost unpadded = frame@;
    assert(unpadded =~= payload@ + be16(crc) + seq![END_RESPONSE_MARKER]);
    while frame.len() < MIN_FRAME_LENGTH
        invariant
            unpadded.len() <= frame@.len(),
            frame@.len() <= MIN_FRAME_LENGTH || frame@ == unpadded,
            frame@.subrange(0, unpadded.len() as int) == unpadded,
            forall|i: int| unpadded.len() <= i < frame@.len() ==> frame@[i] == 0,
        decreases MIN_FRAME_LENGTH - frame@.len(),
    {
        frame.push(0);
    }
    assert(frame@ =~= zero_padded(unpadded, MIN_FRAME_LENGTH as nat));
    frame
}

/// Takes one more chunk into what has been received of a response. Returns
/// whether the chunk was the last one.
pub fn append_chunk(received: &mut Vec<u8>, chunk: &[u8]) -> (done: bool)
    ensures
        final(received)@ == with_chunk(old(received)@, chunk@),
        done == chunk_ends_response(chunk@),
{
    let trimmed = trim_chunk(chunk);
    let done = trimmed.len() > 0 && trimmed[trimmed.len() - 1] == END_RESPONSE_MARKER;
    let kept = if done {
        slice_subrange(trimmed, 0, trimmed.len() - 1)
    } else {
        trimmed
    };
    let ghost before = received@;
    received.extend_from_slice(kept);
    assert(received@ =~= before + kept@);
    done
}

/// The part of a reassembled response that its checksum was computed over.
pub fn checked_bytes(response: &[u8]) -> (data: &[u8])
    ensures
        data@ == checked_part(response@),
{
    let n = response.len();
    let data = if n >= 2 {
        slice_subrange(response, 0, n - 2)
    } else {
        slice_subrange(response, 0, 0)
    };
    assert(data@ =~= checked_part(response@));
    data
}

/// The report of a response whose checksum does not match: the checksum
/// computed over all but its last two bytes, the checksum that those two
/// bytes hold, and `data`, the text that stands for the checked part.
pub fn checksum_mismatch(response: &[u8], data: String) -> (e: InverterError)
    ensures
        e matches InverterError::InvalidCrc { expected, actual, data: shown } && {
            &&& expected@ == hex16(crc16_xmodem(checked_part(response@)))
            &&& actual@ == hex16(stored_checksum(response@))
            &&& shown == data
        },
{
    let n = response.len();
    let actual: u16 = if n >= 2 {
        ((response[n - 2] as u16) << 8) | (response[n - 1] as u16)
    } else if n == 1 {
        response[0] as u16
    } else {
        0
    };
    InverterError::InvalidCrc {
        expected: format_hex16(calc_crc(checked_bytes(response))),
        actual: format_hex16(actual),
        data,
    }
}

/// The text that a report shows for bytes: the text that they encode where
/// they are UTF-8, and else what `String::from_utf8_lossy` makes of them.
pub open spec fn shown_text(bytes: Seq<u8>) -> Seq<char> {
    if valid_utf8(bytes) {
        decode_utf8(bytes)
    } else {
        utf8_lossy(bytes)
    }
}

/// What a reassembled response decodes to.
///
/// A response has to begin with the start marker, the checksum over all of
/// it has to be zero, and its payload has to be UTF-8; it then decodes to
/// the text of its payload. Where the checksum is not zero, the report
/// holds the checksum that the last two bytes should have been, the one
/// that they are, and the part they were computed over as text.
pub open spec fn decoded(response: Seq<u8>) -> Result<Seq<char>, InverterErrorView> {
    if !has_start_marker(response) {
        Err(InverterErrorView::MissingResponseMarker)
    } else if crc16_xmodem(response) != 0 {
        Err(
            InverterErrorView::InvalidCrc {
                expected: hex16(crc16_xmodem(checked_part(response))),
                actual: hex16(stored_checksum(response)),
                data: shown_text(checked_part(response)),
            },
        )
    } else if !valid_utf8(response_payload(response)) {
        Err(InverterErrorView::ExpectedUtf8 { source: utf8_failure(response_payload(response)) })
    } else {
        Ok(decode_utf8(response_payload(response)))
    }
}

/// Whether `r` is what `response` decodes to.
pub open spec fn decodes_to(response: Seq<u8>, r: Result<String, InverterError>) -> bool {
    match r {
        Ok(text) => decoded(response) == Ok::<Seq<char>, InverterErrorView>(text@),
        Err(e) => decoded(response) == Err::<Seq<char>, InverterErrorView>(e@),
    }
}

/// Checks a reassembled response and extracts its payload as text.
pub fn decode_response(response: &[u8]) -> (r: Result<String, InverterError>)
    ensures
        decodes_to(response@, r),
        r is Ok ==> response@.len() >= 3,
{
    let n = response.len();
    if n == 0 || response[0] != START_RESPONSE_MARKER {
        return Err(InverterError::MissingResponseMarker);
    }
    if calc_crc(response) != 0 {
        let data = string_from_utf8_lossy(checked_bytes(response));
        return Err(checksum_mismatch(response, data));
    }
    proof {
        lemma_nonzero_start_needs_three_bytes(response@);
    }
    let payload = slice_subrange(response, 1, n - 2);
    match str_from_utf8(payload) {
        Ok(text) => Ok(text.to_owned()),
        Err(source) => Err(InverterError::ExpectedUtf8 { source }),
    }
}

/// What has been received of a response once `chunks` have arrived, one
/// after the other.
pub open spec fn reassembled(chunks: Seq<Vec<u8>>) -> Seq<u8>
    decreases chunks.len(),
{
    if chunks.len() == 0 {
        Seq::empty()
    } else {
        with_chunk(reassembled(chunks.drop_last()), chunks.last()@)
    }
}

/// Whether one of `chunks` ends the response.
pub open spec fn some_chunk_ends_response(chunks: Seq<Vec<u8>>) -> bool {
    exists|i: int| 0 <= i < chunks.len() && chunk_ends_response(#[trigger] chunks[i]@)
}

/// The number of chunks that a response takes: the chunks up to the first
/// one that ends it; all of `chunks` if none does.
pub open spec fn chunks_taken(chunks: Seq<Vec<u8>>) -> int
    decreases chunks.len(),
{
    if chunks.len() == 0 {
        0
    } else if chunk_ends_response(chunks[0]@) {
        1
    } else {
        1 + chunks_taken(chunks.drop_first())
    }
}

/// Reads a response from the chunks in which it arrived: joins them up to
/// the first one that ends the response, then checks and decodes what they
/// hold. Returns `None` if none of the chunks ends the response.
pub fn read_response(chunks: &[Vec<u8>]) -> (r: Option<Result<String, InverterError>>)
    ensures
        match r {
            Some(outcome) => some_chunk_ends_response(chunks@) && decodes_to(
                reassembled(chunks@.take(chunks_taken(chunks@))),
                outcome,
            ),
            None => !some_chunk_ends_response(chunks@),
        },
{
    let mut received: Vec<u8> = Vec::new();
    let mut at: usize = 0;
    proof {
        assert(chunks@.take(0) =~= Seq::<Vec<u8>>::empty());
        assert(chunks@.skip(0) =~= chunks@);
    }
    while at < chunks.len()
        invariant
            at <= chunks@.len(),
            received@ == reassembled(chunks@.take(at as int)),
            forall|i: int| 0 <= i < at ==> !chunk_ends_response(#[trigger] chunks@[i]@),
            chunks_taken(chunks@) == at + chunks_taken(chunks@.skip(at as int)),
        decreases chunks@.len() - at,
    {
        let done = append_chunk(&mut received, chunks[at].as_slice());
        proof {
            let taken = chunks@.take(at + 1);
            assert(taken.drop_last() =~= chunks@.take(at as int));
            assert(taken.last() == chunks@[at as int]);
            let rest = chunks@.skip(at as int);
            assert(rest[0] == chunks@[at as int]);
            assert(rest.drop_first() =~= chunks@.skip(at + 1));
        }
        if done {
            return Some(decode_response(received.as_slice()));
        }
        at = at + 1;
    }
    None
}

/// Builds the request frame for a command, or refuses a command of more than
/// [`MAX_COMMAND_LENGTH`] bytes.
pub fn encode_command(cmd: &str) -> (r: Result<Vec<u8>, InverterError>)
    ensures
        match r {
            Ok(frame) => {
                &&& cmd.spec_bytes().len() <= MAX_COMMAND_LENGTH
                &&& frame@ == encoded_frame(cmd.spec_bytes())
                &&& frame@.len() == MIN_FRAME_LENGTH
            },
            Err(e) => {
                &&& cmd.spec_bytes().len() > MAX_COMMAND_LENGTH
                &&& e@ == (InverterErrorView::CommandTooLong { cmd: cmd@ })
            },
        },
{
    let payload = cmd.as_bytes();
    if payload.len() > MAX_COMMAND_LENGTH {
        return Err(InverterError::CommandTooLong { cmd: cmd.to_owned() });
    }
    Ok(encode_frame(payload))
}

/// A request that carries up to [`MAX_COMMAND_LENGTH`] bytes is exactly
/// [`MIN_FRAME_LENGTH`] bytes long; a longer one carries three bytes more than
/// its payload.
pub proof fn lemma_encoded_frame_length(payload: Seq<u8>)
    ensures
        payload.len() <= MAX_COMMAND_LENGTH ==> encoded_frame(payload).len() == MIN_FRAME_LENGTH,
        payload.len() > MAX_COMMAND_LENGTH ==> encoded_frame(payload).len() == payload.len() + 3,
{
}

/// A request without its padding passes the check that a response has to
/// pass: the checksum over payload, checksum bytes and nothing else is zero.
pub proof fn lemma_encoded_frame_self_verifies(payload: Seq<u8>)
    ensures
        encoded_frame(payload).subrange(0, payload.len() as int + 3) == payload + be16(
            crc16_xmodem(payload),
        ) + seq![END_RESPONSE_MARKER],
        crc16_xmodem(encoded_frame(payload).subrange(0, payload.len() as int + 2)) == 0,
{
    let crc = crc16_xmodem(payload);
    let unpadded = payload + be16(crc) + seq![END_RESPONSE_MARKER];
    assert(encoded_frame(payload).subrange(0, payload.len() as int + 3) =~= unpadded);
    assert(encoded_frame(payload).subrange(0, payload.len() as int + 2) =~= payload + be16(crc));
    lemma_checksum_self_verifies(payload);
}

/// A response that is put together as the wire format says is accepted, and
/// decodes to the text it was made of: the start marker, the text in UTF-8,
/// and the checksum of both with the high byte first.
pub proof fn lemma_well_formed_response_decodes(text: Seq<char>)
    ensures
        decoded(
            seq![START_RESPONSE_MARKER] + encode_utf8(text) + be16(
                crc16_xmodem(seq![START_RESPONSE_MARKER] + encode_utf8(text)),
            ),
        ) == Ok::<Seq<char>, InverterErrorView>(text),
{
    let body = seq![START_RESPONSE_MARKER] + encode_utf8(text);
    let response = body + be16(crc16_xmodem(body));
    lemma_checksum_self_verifies(body);
    assert(response[0] == START_RESPONSE_MARKER);
    assert(response_payload(response) =~= encode_utf8(text));
    encode_utf8_valid_utf8(text);
    encode_utf8_decode_utf8(text);
}

/// A response that is accepted holds at least the start marker and the two
/// bytes of its checksum.
pub proof fn lemma_accepted_response_length(response: Seq<u8>)
    requires
        decoded(response) is Ok,
    ensures
        response.len() >= 3,
{
    lemma_nonzero_start_needs_three_bytes(response);
}

/// The check of a response of two or more bytes fails exactly when the
/// checksum that it carries differs from the checksum of what stands before
/// it; a rejected response is reported with two different checksums.
pub proof fn lemma_mismatch_iff_checksums_differ(response: Seq<u8>)
    requires
        response.len() >= 2,
    ensures
        crc16_xmodem(response) != 0 <==> stored_checksum(response) != crc16_xmodem(
            checked_part(response),
        ),
{
    let n = response.len() as int;
    let high = response[n - 2];
    let low = response[n - 1];
    let crc = crc16_xmodem(checked_part(response));
    lemma_zero_checksum_iff_trailer_matches(response);
    let trailer = response.subrange(n - 2, n);
    assert(trailer[0] == high && trailer[1] == low);
    assert(be16(crc)[0] == (crc >> 8) as u8 && be16(crc)[1] == (crc & 0xff) as u8);
    assert(be16_value(high, low) == crc <==> (high == (crc >> 8) as u8 && low == (crc & 0xff)
        as u8)) by (bit_vector);
    if stored_checksum(response) == crc {
        assert(trailer =~= be16(crc));
    }
}

/// Nothing is lost of a chunk that ends in a byte other than zero and the
/// end marker: it joins whole, and the response goes on.
pub proof fn lemma_full_chunk_joins_whole(received: Seq<u8>, chunk: Seq<u8>)
    requires
        chunk.len() > 0,
        chunk.last() != 0,
        chunk.last() != END_RESPONSE_MARKER,
    ensures
        !chunk_ends_response(chunk),
        with_chunk(received, chunk) == received + chunk,
{
}

/// The chunk that holds the last bytes of a response, the end marker and
/// padding ends the response, and joins without the marker and the padding.
pub proof fn lemma_last_chunk_ends_response(received: Seq<u8>, tail: Seq<u8>, padding: nat)
    ensures
        chunk_ends_response(
            tail + seq![END_RESPONSE_MARKER] + Seq::new(padding, |i: int| 0u8),
        ),
        with_chunk(
            received,
            tail + seq![END_RESPONSE_MARKER] + Seq::new(padding, |i: int| 0u8),
        ) == received + tail,
{
    let marked = tail + seq![END_RESPONSE_MARKER];
    let chunk = marked + Seq::new(padding, |i: int| 0u8);
    lemma_trimmed_prefix(chunk, marked.len() as int);
    assert(chunk.subrange(0, marked.len() as int) =~= marked);
    assert(marked.drop_last() =~= tail);
}

} // verus!
