//! Reads typed values from text whose tokens are separated by whitespace.
//!
//! A [`Deserializer`] walks the tokens of a text from first to last. Each
//! scalar that is asked of it takes exactly one token; the name of the field
//! that is being read goes into every failure. Shapes that a flat run of
//! tokens cannot hold are refused without a token being taken.

use crate::lexical::{
    decimal_in_range, float_answer, integer_failure, parse_i16, parse_i32, parse_i64, parse_i8,
    parse_u16, parse_u32, parse_u64, parse_u8,
};
use crate::tokens::{next_token, tokens};
use core::num::{ParseFloatError, ParseIntError};
use vstd::prelude::*;
use vstd::string::{StrSliceExecFns, StringSliceAdditionalSpecFns};
use vstd::utf8::{decode_utf8, encode_utf8, encode_utf8_decode_utf8};

verus! {

/// Why a text could not be read.
#[allow(inconsistent_fields)]
#[derive(Debug, PartialEq)]
pub enum DeError {
    /// A failure that the caller reports in its own words.
    Message { msg: String },
    /// A shape was asked for that tokens cannot hold.
    UnsupportedType { typ: &'static str },
    /// A field's name was asked for outside any field.
    MissingField,
    /// The tokens ran out before this field.
    ExpectedValue { field: &'static str },
    /// The token of this field is not a single character.
    ExpectedChar { field: &'static str },
    /// The token of this field is not a floating-point number.
    ExpectedFloat { field: &'static str, source: ParseFloatError },
    /// The token of this field is not an integer of the type asked for.
    ExpectedInteger { field: &'static str, source: ParseIntError },
}

/// [`DeError`] with its text as character sequences.
#[allow(inconsistent_fields)]
pub enum DeErrorView {
    Message { msg: Seq<char> },
    UnsupportedType { typ: Seq<char> },
    MissingField,
    ExpectedValue { field: Seq<char> },
    ExpectedChar { field: Seq<char> },
    ExpectedFloat { field: Seq<char>, source: ParseFloatError },
    ExpectedInteger { field: Seq<char>, source: ParseIntError },
}

impl View for DeError {
    type V = DeErrorView;

    open spec fn view(&self) -> DeErrorView {
        match *self {
            DeError::Message { msg } => DeErrorView::Message { msg: msg@ },
            DeError::UnsupportedType { typ } => DeErrorView::UnsupportedType { typ: typ@ },
            DeError::MissingField => DeErrorView::MissingField,
            DeError::ExpectedValue { field } => DeErrorView::ExpectedValue { field: field@ },
            DeError::ExpectedChar { field } => DeErrorView::ExpectedChar { field: field@ },
            DeError::ExpectedFloat { field, source } => DeErrorView::ExpectedFloat {
                field: field@,
                source,
            },
            DeError::ExpectedInteger { field, source } => DeErrorView::ExpectedInteger {
                field: field@,
                source,
            },
        }
    }
}

impl DeError {
    /// A failure that the caller reports in its own words.
    pub fn custom(msg: &str) -> (e: DeError)
        ensures
            e@ == (DeErrorView::Message { msg: msg@ }),
    {
        DeError::Message { msg: msg.to_owned() }
    }

    /// The refusal of a shape that tokens cannot hold.
    pub fn unsupported_type(typ: &'static str) -> (e: DeError)
        ensures
            e@ == (DeErrorView::UnsupportedType { typ: typ@ }),
    {
        DeError::UnsupportedType { typ }
    }
}

/// The width of a floating-point number.
#[derive(Debug, Clone, Copy, PartialEq, Eq)]
pub enum FloatWidth {
    /// 32 bits.
    Single,
    /// 64 bits.
    Double,
}

/// What can be asked of a [`Deserializer`]: the scalars that take one token
/// each, and the shapes that it refuses.
#[derive(Debug, Clone, Copy, PartialEq, Eq)]
pub enum Kind {
    I8,
    I16,
    I32,
    I64,
    U8,
    U16,
    U32,
    U64,
    /// A floating-point number of the given width.
    Float(FloatWidth),
    Char,
    Str,
    Any,
    Boolean,
    Bytes,
    ByteBuffer,
    Optional,
    Unit,
    UnitStruct,
    NewtypeStruct,
    TupleStruct,
    Mapping,
    Enumeration,
    IgnoredAny,
}

/// A field of a record: its name and the scalar that it holds.
#[derive(Debug, Clone, Copy, PartialEq, Eq)]
pub struct FieldSpec {
    pub name: &'static str,
    pub kind: Kind,
}

/// A scalar that was read. `F` is the caller's floating-point type.
#[derive(Debug, Clone, PartialEq)]
pub enum Value<F> {
    I8(i8),
    I16(i16),
    I32(i32),
    I64(i64),
    U8(u8),
    U16(u16),
    U32(u32),
    U64(u64),
    Float(F),
    Char(char),
    Str(String),
}

impl Kind {
    /// The name under which a shape is refused; `None` for the scalars.
    pub open spec fn refused_as(self) -> Option<Seq<char>> {
        match self {
            Kind::Any => Some("any"@),
            Kind::Boolean => Some("bool"@),
            Kind::Bytes => Some("bytes"@),
            Kind::ByteBuffer => Some("byte_buf"@),
            Kind::Optional => Some("option"@),
            Kind::Unit => Some("unit"@),
            Kind::UnitStruct => Some("unit_struct"@),
            Kind::NewtypeStruct => Some("newtype_struct"@),
            Kind::TupleStruct => Some("tuple_struct"@),
            Kind::Mapping => Some("map"@),
            Kind::Enumeration => Some("enum"@),
            Kind::IgnoredAny => Some("ignored_any"@),
            _ => None,
        }
    }

    /// The name under which a shape is refused; `None` for the scalars.
    pub fn refusal(&self) -> (r: Option<&'static str>)
        ensures
            match r {
                Some(name) => self.refused_as() == Some(name@),
                None => self.refused_as() is None,
            },
    {
        match self {
            Kind::Any => Some("any"),
            Kind::Boolean => Some("bool"),
            Kind::Bytes => Some("bytes"),
            Kind::ByteBuffer => Some("byte_buf"),
            Kind::Optional => Some("option"),
            Kind::Unit => Some("unit"),
            Kind::UnitStruct => Some("unit_struct"),
            Kind::NewtypeStruct => Some("newtype_struct"),
            Kind::TupleStruct => Some("tuple_struct"),
            Kind::Mapping => Some("map"),
            Kind::Enumeration => Some("enum"),
            Kind::IgnoredAny => Some("ignored_any"),
            _ => None,
        }
    }
}

/// The name that failures carry: that of the field being read, or
/// `<unknown>` outside any field.
pub open spec fn context_name(field: Option<&'static str>) -> Seq<char> {
    match field {
        Some(name) => name@,
        None => "<unknown>"@,
    }
}

/// The tokens that are left once the next one has been taken.
pub open spec fn advanced(remaining: Seq<Seq<u8>>) -> Seq<Seq<u8>> {
    if remaining.len() > 0 {
        remaining.drop_first()
    } else {
        remaining
    }
}

/// Whether `r` is the failure `e`.
pub open spec fn fails_with<T>(r: Result<T, DeError>, e: DeErrorView) -> bool {
    r matches Err(actual) && actual@ == e
}

/// What reading an integer from `min` to `max` gives: the number that the
/// next token spells, or the failure that names `field`. The type of the
/// integer is given by whether it is `signed` and by its width in `bits`.
pub open spec fn integer_read(
    remaining: Seq<Seq<u8>>,
    field: Seq<char>,
    signed: bool,
    bits: nat,
    min: int,
    max: int,
) -> Result<int, DeErrorView> {
    if remaining.len() == 0 {
        Err(DeErrorView::ExpectedValue { field })
    } else {
        match decimal_in_range(remaining[0], signed, min, max) {
            Some(v) => Ok(v),
            None => Err(
                DeErrorView::ExpectedInteger {
                    field,
                    source: integer_failure(remaining[0], signed, bits),
                },
            ),
        }
    }
}

/// What reading a character gives: the next token, if it is a single
/// character, whatever the number of bytes that encode it.
pub open spec fn char_read(remaining: Seq<Seq<u8>>, field: Seq<char>) -> Result<char, DeErrorView> {
    if remaining.len() == 0 {
        Err(DeErrorView::ExpectedValue { field })
    } else if decode_utf8(remaining[0]).len() == 1 {
        Ok(decode_utf8(remaining[0])[0])
    } else {
        Err(DeErrorView::ExpectedChar { field })
    }
}

/// A token that encodes a single character reads as that character,
/// whatever the number of bytes that encode it.
pub proof fn lemma_single_character_is_read(c: char, rest: Seq<Seq<u8>>, field: Seq<char>)
    ensures
        char_read(seq![encode_utf8(seq![c])] + rest, field) == Ok::<char, DeErrorView>(c),
{
    encode_utf8_decode_utf8(seq![c]);
    assert((seq![encode_utf8(seq![c])] + rest)[0] == encode_utf8(seq![c]));
}

/// What reading text gives: the next token.
pub open spec fn text_read(remaining: Seq<Seq<u8>>, field: Seq<char>) -> Result<
    Seq<char>,
    DeErrorView,
> {
    if remaining.len() == 0 {
        Err(DeErrorView::ExpectedValue { field })
    } else {
        Ok(decode_utf8(remaining[0]))
    }
}

/// Whether `r` is what reading a floating-point number gives: what the
/// caller's conversion makes of the next token, or the failure that names
/// `field` and holds what the conversion reported.
pub open spec fn float_reads_as<F, P: Fn(&str) -> Result<F, ParseFloatError>>(
    remaining: Seq<Seq<u8>>,
    field: Seq<char>,
    parse_float: P,
    r: Result<F, DeError>,
) -> bool {
    if remaining.len() == 0 {
        fails_with(r, DeErrorView::ExpectedValue { field })
    } else {
        match r {
            Ok(v) => float_answer(parse_float, remaining[0], Ok(v)),
            Err(DeError::ExpectedFloat { field: named, source }) => named@ == field
                && float_answer(parse_float, remaining[0], Err(source)),
            Err(_) => false,
        }
    }
}

/// Whether `outcome` is what the caller's conversion may give for a token
/// that is read as a floating-point number of `width`.
pub open spec fn wide_float_answer<F, P: Fn(FloatWidth, &str) -> Result<F, ParseFloatError>>(
    parse_float: P,
    width: FloatWidth,
    token: Seq<u8>,
    outcome: Result<F, ParseFloatError>,
) -> bool {
    exists|text: &str| #[trigger]
        call_ensures(parse_float, (width, text), outcome) && text.spec_bytes() == token
}

/// Whether `r` is what reading a scalar of `kind` gives, where `remaining`
/// are the tokens that are left and `field` is the name that failures carry.
///
/// A shape that tokens cannot hold is refused under its name. A scalar
/// needs a token, and the token has to spell a value of its type. A
/// floating-point number is what the caller's conversion makes of the
/// token.
pub open spec fn scalar_reads_as<F, P: Fn(FloatWidth, &str) -> Result<F, ParseFloatError>>(
    kind: Kind,
    field: Seq<char>,
    remaining: Seq<Seq<u8>>,
    parse_float: P,
    r: Result<Value<F>, DeError>,
) -> bool {
    match kind {
        Kind::I8 => match integer_read(remaining, field, true, 8, i8::MIN as int, i8::MAX as int) {
            Ok(v) => r == Ok::<Value<F>, DeError>(Value::I8(v as i8)),
            Err(e) => fails_with(r, e),
        },
        Kind::I16 => match integer_read(
            remaining,
            field,
            true,
            16,
            i16::MIN as int,
            i16::MAX as int,
        ) {
            Ok(v) => r == Ok::<Value<F>, DeError>(Value::I16(v as i16)),
            Err(e) => fails_with(r, e),
        },
        Kind::I32 => match integer_read(
            remaining,
            field,
            true,
            32,
            i32::MIN as int,
            i32::MAX as int,
        ) {
            Ok(v) => r == Ok::<Value<F>, DeError>(Value::I32(v as i32)),
            Err(e) => fails_with(r, e),
        },
        Kind::I64 => match integer_read(
            remaining,
            field,
            true,
            64,
            i64::MIN as int,
            i64::MAX as int,
        ) {
            Ok(v) => r == Ok::<Value<F>, DeError>(Value::I64(v as i64)),
            Err(e) => fails_with(r, e),
        },
        Kind::U8 => match integer_read(remaining, field, false, 8, 0, u8::MAX as int) {
            Ok(v) => r == Ok::<Value<F>, DeError>(Value::U8(v as u8)),
            Err(e) => fails_with(r, e),
        },
        Kind::U16 => match integer_read(remaining, field, false, 16, 0, u16::MAX as int) {
            Ok(v) => r == Ok::<Value<F>, DeError>(Value::U16(v as u16)),
            Err(e) => fails_with(r, e),
        },
        Kind::U32 => match integer_read(remaining, field, false, 32, 0, u32::MAX as int) {
            Ok(v) => r == Ok::<Value<F>, DeError>(Value::U32(v as u32)),
            Err(e) => fails_with(r, e),
        },
        Kind::U64 => match integer_read(remaining, field, false, 64, 0, u64::MAX as int) {
            Ok(v) => r == Ok::<Value<F>, DeError>(Value::U64(v as u64)),
            Err(e) => fails_with(r, e),
        },
        Kind::Float(width) => if remaining.len() == 0 {
            fails_with(r, DeErrorView::ExpectedValue { field })
        } else {
            match r {
                Ok(Value::Float(v)) => wide_float_answer(parse_float, width, remaining[0], Ok(v)),
                Err(DeError::ExpectedFloat { field: named, source }) => named@ == field
                    && wide_float_answer(parse_float, width, remaining[0], Err(source)),
                _ => false,
            }
        },
        Kind::Char => match char_read(remaining, field) {
            Ok(c) => r == Ok::<Value<F>, DeError>(Value::Char(c)),
            Err(e) => fails_with(r, e),
        },
        Kind::Str => match text_read(remaining, field) {
            Ok(text) => r matches Ok(Value::Str(read)) && read@ == text,
            Err(e) => fails_with(r, e),
        },
        _ => fails_with(r, DeErrorView::UnsupportedType { typ: kind.refused_as()->0 }),
    }
}

/// Whether reading a scalar of `kind` takes a token.
pub open spec fn takes_token(kind: Kind, remaining: Seq<Seq<u8>>) -> bool {
    kind.refused_as() is None && remaining.len() > 0
}

/// A walk over the tokens of a text.
pub struct Deserializer<'de> {
    rest: &'de str,
    field: Option<&'static str>,
}

impl<'de> Deserializer<'de> {
    /// The tokens that have not been taken yet.
    pub closed spec fn remaining(&self) -> Seq<Seq<u8>> {
        tokens(self.rest.spec_bytes())
    }

    /// The field that is being read, if any.
    pub closed spec fn context(&self) -> Option<&'static str> {
        self.field
    }

    /// Begins at the first token of `input`, outside any field.
    pub fn from_str(input: &'de str) -> (de: Deserializer<'de>)
        ensures
            de.remaining() == tokens(input.spec_bytes()),
            de.context() is None,
    {
        Deserializer { rest: input, field: None }
    }

    /// The name of the field that is being read.
    pub fn field(&self) -> (r: Result<&'static str, DeError>)
        ensures
            match self.context() {
                Some(name) => r == Ok::<&'static str, DeError>(name),
                None => r matches Err(e) && e@ == DeErrorView::MissingField,
            },
    {
        match self.field {
            Some(name) => Ok(name),
            None => Err(DeError::MissingField),
        }
    }

    /// The name that failures carry.
    pub fn field_or_unknown(&self) -> (name: &'static str)
        ensures
            name@ == context_name(self.context()),
    {
        match self.field {
            Some(name) => name,
            None => "<unknown>",
        }
    }

    /// Leaves the field that is being read and returns its name.
    pub fn take_field(&mut self) -> (r: Result<&'static str, DeError>)
        ensures
            final(self).remaining() == old(self).remaining(),
            final(self).context() is None,
            match old(self).context() {
                Some(name) => r == Ok::<&'static str, DeError>(name),
                None => r matches Err(e) && e@ == DeErrorView::MissingField,
            },
    {
        let r = self.field();
        self.field = None;
        r
    }

    /// Enters the field `name`: failures carry this name from here on.
    pub fn enter_field(&mut self, name: &'static str)
        ensures
            final(self).remaining() == old(self).remaining(),
            final(self).context() == Some(name),
    {
        self.field = Some(name);
    }

    /// Whether every token has been taken.
    pub fn at_end(&self) -> (r: bool)
        ensures
            r == (self.remaining().len() == 0),
    {
        match next_token(self.rest) {
            Some(_) => false,
            None => true,
        }
    }

    /// Takes the next token.
    pub fn value(&mut self) -> (r: Result<&'de str, DeError>)
        ensures
            final(self).context() == old(self).context(),
            final(self).remaining() == advanced(old(self).remaining()),
            match r {
                Ok(token) => old(self).remaining().len() > 0 && token.spec_bytes() == old(
                    self,
                ).remaining()[0],
                Err(e) => old(self).remaining().len() == 0 && e@ == (DeErrorView::ExpectedValue {
                    field: context_name(old(self).context()),
                }),
            },
    {
        match next_token(self.rest) {
            Some((token, rest)) => {
                self.rest = rest;
                Ok(token)
            },
            None => Err(DeError::ExpectedValue { field: self.field_or_unknown() }),
        }
    }

    /// Reads the name of the field that is being read.
    pub fn deserialize_identifier(&self) -> (r: Result<&'static str, DeError>)
        ensures
            match self.context() {
                Some(name) => r == Ok::<&'static str, DeError>(name),
                None => r matches Err(e) && e@ == DeErrorView::MissingField,
            },
    {
        self.field()
    }

    /// Reads the next token as text.
    pub fn deserialize_str(&mut self) -> (r: Result<&'de str, DeError>)
        ensures
            final(self).context() == old(self).context(),
            final(self).remaining() == advanced(old(self).remaining()),
            match r {
                Ok(token) => old(self).remaining().len() > 0 && token.spec_bytes() == old(
                    self,
                ).remaining()[0],
                Err(e) => old(self).remaining().len() == 0 && e@ == (DeErrorView::ExpectedValue {
                    field: context_name(old(self).context()),
                }),
            },
    {
        self.value()
    }

    /// Reads the next token as text of its own.
    pub fn deserialize_string(&mut self) -> (r: Result<String, DeError>)
        ensures
            final(self).context() == old(self).context(),
            final(self).remaining() == advanced(old(self).remaining()),
            match text_read(old(self).remaining(), context_name(old(self).context())) {
                Ok(text) => r matches Ok(read) && read@ == text,
                Err(e) => fails_with(r, e),
            },
    {
        match self.value() {
            Ok(token) => {
                proof {
                    encode_utf8_decode_utf8(token@);
                }
                Ok(token.to_owned())
            },
            Err(e) => Err(e),
        }
    }

    /// Reads the next token as a single character: the token has to hold
    /// exactly one character, of any encoded length.
    pub fn deserialize_char(&mut self) -> (r: Result<char, DeError>)
        ensures
            final(self).context() == old(self).context(),
            final(self).remaining() == advanced(old(self).remaining()),
            match char_read(old(self).remaining(), context_name(old(self).context())) {
                Ok(c) => r == Ok::<char, DeError>(c),
                Err(e) => fails_with(r, e),
            },
    {
        let field = self.field_or_unknown();
        match self.value() {
            Ok(token) => {
                proof {
                    encode_utf8_decode_utf8(token@);
                }
                if token.unicode_len() != 1 {
                    return Err(DeError::ExpectedChar { field });
                }
                Ok(token.get_char(0))
            },
            Err(e) => Err(e),
        }
    }

    /// Reads the next token as a floating-point number, by the caller's
    /// conversion.
    pub fn deserialize_float<F, P: Fn(&str) -> Result<F, ParseFloatError>>(
        &mut self,
        parse_float: &P,
    ) -> (r: Result<F, DeError>)
        requires
            forall|text: &str| call_requires(*parse_float, (text,)),
        ensures
            final(self).context() == old(self).context(),
            final(self).remaining() == advanced(old(self).remaining()),
            float_reads_as(
                old(self).remaining(),
                context_name(old(self).context()),
                *parse_float,
                r,
            ),
    {
        let field = self.field_or_unknown();
        match self.value() {
            Ok(token) => match parse_float(token) {
                Ok(v) => Ok(v),
                Err(source) => Err(DeError::ExpectedFloat { field, source }),
            },
            Err(e) => Err(e),
        }
    }

    /// Reads the next token as an `i8`.
    pub fn deserialize_i8(&mut self) -> (r: Result<i8, DeError>)
        ensures
            final(self).context() == old(self).context(),
            final(self).remaining() == advanced(old(self).remaining()),
            match integer_read(
                old(self).remaining(),
                context_name(old(self).context()),
                true,
                8,
                i8::MIN as int,
                i8::MAX as int,
            ) {
                Ok(v) => r == Ok::<i8, DeError>(v as i8),
                Err(e) => fails_with(r, e),
            },
    {
        let field = self.field_or_unknown();
        match self.value() {
            Ok(token) => match parse_i8(token) {
                Ok(v) => Ok(v),
                Err(source) => Err(DeError::ExpectedInteger { field, source }),
            },
            Err(e) => Err(e),
        }
    }

    /// Reads the next token as an `i16`.
    pub fn deserialize_i16(&mut self) -> (r: Result<i16, DeError>)
        ensures
            final(self).context() == old(self).context(),
            final(self).remaining() == advanced(old(self).remaining()),
            match integer_read(
                old(self).remaining(),
                context_name(old(self).context()),
                true,
                16,
                i16::MIN as int,
                i16::MAX as int,
            ) {
                Ok(v) => r == Ok::<i16, DeError>(v as i16),
                Err(e) => fails_with(r, e),
            },
    {
        let field = self.field_or_unknown();
        match self.value() {
            Ok(token) => match parse_i16(token) {
                Ok(v) => Ok(v),
                Err(source) => Err(DeError::ExpectedInteger { field, source }),
            },
            Err(e) => Err(e),
        }
    }

    /// Reads the next token as an `i32`.
    pub fn deserialize_i32(&mut self) -> (r: Result<i32, DeError>)
        ensures
            final(self).context() == old(self).context(),
            final(self).remaining() == advanced(old(self).remaining()),
            match integer_read(
                old(self).remaining(),
                context_name(old(self).context()),
                true,
                32,
                i32::MIN as int,
                i32::MAX as int,
            ) {
                Ok(v) => r == Ok::<i32, DeError>(v as i32),
                Err(e) => fails_with(r, e),
            },
    {
        let field = self.field_or_unknown();
        match self.value() {
            Ok(token) => match parse_i32(token) {
                Ok(v) => Ok(v),
                Err(source) => Err(DeError::ExpectedInteger { field, source }),
            },
            Err(e) => Err(e),
        }
    }

    /// Reads the next token as an `i64`.
    pub fn deserialize_i64(&mut self) -> (r: Result<i64, DeError>)
        ensures
            final(self).context() == old(self).context(),
            final(self).remaining() == advanced(old(self).remaining()),
            match integer_read(
                old(self).remaining(),
                context_name(old(self).context()),
                true,
                64,
                i64::MIN as int,
                i64::MAX as int,
            ) {
                Ok(v) => r == Ok::<i64, DeError>(v as i64),
                Err(e) => fails_with(r, e),
            },
    {
        let field = self.field_or_unknown();
        match self.value() {
            Ok(token) => match parse_i64(token) {
                Ok(v) => Ok(v),
                Err(source) => Err(DeError::ExpectedInteger { field, source }),
            },
            Err(e) => Err(e),
        }
    }

    /// Reads the next token as a `u8`.
    pub fn deserialize_u8(&mut self) -> (r: Result<u8, DeError>)
        ensures
            final(self).context() == old(self).context(),
            final(self).remaining() == advanced(old(self).remaining()),
            match integer_read(
                old(self).remaining(),
                context_name(old(self).context()),
                false,
                8,
                0,
                u8::MAX as int,
            ) {
                Ok(v) => r == Ok::<u8, DeError>(v as u8),
                Err(e) => fails_with(r, e),
            },
    {
        let field = self.field_or_unknown();
        match self.value() {
            Ok(token) => match parse_u8(token) {
                Ok(v) => Ok(v),
                Err(source) => Err(DeError::ExpectedInteger { field, source }),
            },
            Err(e) => Err(e),
        }
    }

    /// Reads the next token as a `u16`.
    pub fn deserialize_u16(&mut self) -> (r: Result<u16, DeError>)
        ensures
            final(self).context() == old(self).context(),
            final(self).remaining() == advanced(old(self).remaining()),
            match integer_read(
                old(self).remaining(),
                context_name(old(self).context()),
                false,
                16,
                0,
                u16::MAX as int,
            ) {
                Ok(v) => r == Ok::<u16, DeError>(v as u16),
                Err(e) => fails_with(r, e),
            },
    {
        let field = self.field_or_unknown();
        match self.value() {
            Ok(token) => match parse_u16(token) {
                Ok(v) => Ok(v),
                Err(source) => Err(DeError::ExpectedInteger { field, source }),
            },
            Err(e) => Err(e),
        }
    }

    /// Reads the next token as a `u32`.
    pub fn deserialize_u32(&mut self) -> (r: Result<u32, DeError>)
        ensures
            final(self).context() == old(self).context(),
            final(self).remaining() == advanced(old(self).remaining()),
            match integer_read(
                old(self).remaining(),
                context_name(old(self).context()),
                false,
                32,
                0,
                u32::MAX as int,
            ) {
                Ok(v) => r == Ok::<u32, DeError>(v as u32),
                Err(e) => fails_with(r, e),
            },
    {
        let field = self.field_or_unknown();
        match self.value() {
            Ok(token) => match parse_u32(token) {
                Ok(v) => Ok(v),
                Err(source) => Err(DeError::ExpectedInteger { field, source }),
            },
            Err(e) => Err(e),
        }
    }

    /// Reads the next token as a `u64`.
    pub fn deserialize_u64(&mut self) -> (r: Result<u64, DeError>)
        ensures
            final(self).context() == old(self).context(),
            final(self).remaining() == advanced(old(self).remaining()),
            match integer_read(
                old(self).remaining(),
                context_name(old(self).context()),
                false,
                64,
                0,
                u64::MAX as int,
            ) {
                Ok(v) => r == Ok::<u64, DeError>(v as u64),
                Err(e) => fails_with(r, e),
            },
    {
        let field = self.field_or_unknown();
        match self.value() {
            Ok(token) => match parse_u64(token) {
                Ok(v) => Ok(v),
                Err(source) => Err(DeError::ExpectedInteger { field, source }),
            },
            Err(e) => Err(e),
        }
    }

    /// Reads a scalar of `kind`, or refuses `kind` if it is a shape that
    /// tokens cannot hold. A refusal takes no token.
    pub fn deserialize<F, P: Fn(FloatWidth, &str) -> Result<F, ParseFloatError>>(
        &mut self,
        kind: Kind,
        parse_float: &P,
    ) -> (r: Result<Value<F>, DeError>)
        requires
            forall|width: FloatWidth, text: &str| call_requires(*parse_float, (width, text)),
        ensures
            final(self).context() == old(self).context(),
            final(self).remaining() == (if takes_token(kind, old(self).remaining()) {
                old(self).remaining().drop_first()
            } else {
                old(self).remaining()
            }),
            scalar_reads_as(
                kind,
                context_name(old(self).context()),
                old(self).remaining(),
                *parse_float,
                r,
            ),
            kind.refused_as() is Some ==> r is Err,
    {
        match kind.refusal() {
            Some(typ) => {
                return Err(DeError::unsupported_type(typ));
            },
            None => {},
        }
        match kind {
            Kind::I8 => match self.deserialize_i8() {
                Ok(v) => Ok(Value::I8(v)),
                Err(e) => Err(e),
            },
            Kind::I16 => match self.deserialize_i16() {
                Ok(v) => Ok(Value::I16(v)),
                Err(e) => Err(e),
            },
            Kind::I32 => match self.deserialize_i32() {
                Ok(v) => Ok(Value::I32(v)),
                Err(e) => Err(e),
            },
            Kind::I64 => match self.deserialize_i64() {
                Ok(v) => Ok(Value::I64(v)),
                Err(e) => Err(e),
            },
            Kind::U8 => match self.deserialize_u8() {
                Ok(v) => Ok(Value::U8(v)),
                Err(e) => Err(e),
            },
            Kind::U16 => match self.deserialize_u16() {
                Ok(v) => Ok(Value::U16(v)),
                Err(e) => Err(e),
            },
            Kind::U32 => match self.deserialize_u32() {
                Ok(v) => Ok(Value::U32(v)),
                Err(e) => Err(e),
            },
            Kind::U64 => match self.deserialize_u64() {
                Ok(v) => Ok(Value::U64(v)),
                Err(e) => Err(e),
            },
            Kind::Float(width) => {
                let field = self.field_or_unknown();
                match self.value() {
                    Ok(token) => match parse_float(width, token) {
                        Ok(v) => Ok(Value::Float(v)),
                        Err(source) => Err(DeError::ExpectedFloat { field, source }),
                    },
                    Err(e) => Err(e),
                }
            },
            Kind::Char => match self.deserialize_char() {
                Ok(v) => Ok(Value::Char(v)),
                Err(e) => Err(e),
            },
            _ => match self.deserialize_string() {
                Ok(v) => Ok(Value::Str(v)),
                Err(e) => Err(e),
            },
        }
    }
}

/// The fields of a record, walked in order.
pub struct SpaceSeparated<'f> {
    fields: &'f [&'static str],
    position: usize,
}

impl<'f> SpaceSeparated<'f> {
    /// The names of the fields.
    pub closed spec fn names(&self) -> Seq<&'static str> {
        self.fields@
    }

    /// The number of fields that have been entered.
    pub closed spec fn entered(&self) -> int {
        self.position as int
    }

    /// Begins before the first of `fields`.
    pub fn new(fields: &'f [&'static str]) -> (walk: SpaceSeparated<'f>)
        ensures
            walk.names() == fields@,
            walk.entered() == 0,
    {
        SpaceSeparated { fields, position: 0 }
    }

    /// Enters the next field and returns its name; `None` once every field
    /// has been entered. The deserializer keeps its tokens.
    pub fn next_key(&mut self, de: &mut Deserializer) -> (r: Option<&'static str>)
        ensures
            final(self).names() == old(self).names(),
            final(de).remaining() == old(de).remaining(),
            match r {
                Some(name) => {
                    &&& old(self).entered() < old(self).names().len()
                    &&& name == old(self).names()[old(self).entered()]
                    &&& final(self).entered() == old(self).entered() + 1
                    &&& final(de).context() == Some(name)
                },
                None => {
                    &&& old(self).entered() >= old(self).names().len()
                    &&& final(self).entered() == old(self).entered()
                    &&& final(de).context() == old(de).context()
                },
            },
    {
        if self.position < self.fields.len() {
            let name = self.fields[self.position];
            self.position = self.position + 1;
            de.enter_field(name);
            Some(name)
        } else {
            None
        }
    }
}

/// Whether two texts are the same.
fn same_text(a: &str, b: &str) -> (r: bool)
    ensures
        r == (a@ == b@),
{
    let x = a.as_bytes();
    let y = b.as_bytes();
    if x.len() != y.len() {
        return false;
    }
    let mut i: usize = 0;
    while i < x.len()
        invariant
            x@ == a.spec_bytes(),
            y@ == b.spec_bytes(),
            i <= x@.len(),
            x@.len() == y@.len(),
            forall|k: int| 0 <= k < i ==> x@[k] == y@[k],
        decreases x@.len() - i,
    {
        if x[i] != y[i] {
            return false;
        }
        i = i + 1;
    }
    proof {
        assert(x@ =~= y@);
        encode_utf8_decode_utf8(a@);
        encode_utf8_decode_utf8(b@);
    }
    true
}

/// Whether no two of `fields` have the same name.
pub open spec fn names_differ(fields: Seq<FieldSpec>) -> bool {
    forall|i: int, j: int|
        0 <= i < j < fields.len() ==> (#[trigger] fields[i]).name@ != (#[trigger] fields[j]).name@
}

/// Whether no two of `fields` have the same name.
pub fn have_different_names(fields: &[FieldSpec]) -> (r: bool)
    ensures
        r == names_differ(fields@),
{
    let mut j: usize = 0;
    while j < fields.len()
        invariant
            j <= fields@.len(),
            forall|a: int, b: int|
                0 <= a < b < j ==> (#[trigger] fields@[a]).name@ != (#[trigger] fields@[b]).name@,
        decreases fields@.len() - j,
    {
        let mut i: usize = 0;
        while i < j
            invariant
                i <= j < fields@.len(),
                forall|a: int|
                    0 <= a < i ==> (#[trigger] fields@[a]).name@ != fields@[j as int].name@,
            decreases j - i,
        {
            if same_text(fields[i].name, fields[j].name) {
                assert(fields@[i as int].name@ == fields@[j as int].name@);
                return false;
            }
            i = i + 1;
        }
        j = j + 1;
    }
    true
}

/// The shape of what a text holds.
#[derive(Debug, Clone, PartialEq, Eq)]
pub enum Schema {
    /// A record: named fields in this order, one token each.
    Struct(Vec<FieldSpec>),
    /// A tuple: scalars in this order, one token each.
    Tuple(Vec<Kind>),
    /// A sequence of any length: scalars of one kind, one for each token
    /// of the text.
    Sequence(Kind),
}

impl Schema {
    /// The number of scalars that the schema declares; `None` for a
    /// sequence, which holds as many as the text has tokens.
    pub open spec fn declared(&self) -> Option<int> {
        match *self {
            Schema::Struct(fields) => Some(fields@.len() as int),
            Schema::Tuple(kinds) => Some(kinds@.len() as int),
            Schema::Sequence(_) => None,
        }
    }

    /// The number of scalars that are read from a text of `available`
    /// tokens.
    pub open spec fn count(&self, available: int) -> int {
        match self.declared() {
            Some(n) => n,
            None => available,
        }
    }

    /// The kind of the scalar at position `i`.
    pub open spec fn kind_at(&self, i: int) -> Kind {
        match *self {
            Schema::Struct(fields) => fields@[i].kind,
            Schema::Tuple(kinds) => kinds@[i],
            Schema::Sequence(kind) => kind,
        }
    }

    /// The name that a failure at position `i` carries: the field's name in
    /// a record, `<unknown>` in a tuple and in a sequence.
    pub open spec fn name_at(&self, i: int) -> Seq<char> {
        match *self {
            Schema::Struct(fields) => fields@[i].name@,
            _ => "<unknown>"@,
        }
    }

    /// The name under which the schema is refused before any token is
    /// looked at: that of the kind of a sequence, if it is a shape that
    /// tokens cannot hold.
    pub open spec fn refused_as(&self) -> Option<Seq<char>> {
        match *self {
            Schema::Sequence(kind) => kind.refused_as(),
            _ => None,
        }
    }

    /// Whether the schema is well formed: no two fields of a record have the
    /// same name.
    pub open spec fn well_formed(&self) -> bool {
        match *self {
            Schema::Struct(fields) => names_differ(fields@),
            _ => true,
        }
    }

    /// Whether the schema is well formed.
    pub fn is_well_formed(&self) -> (r: bool)
        ensures
            r == self.well_formed(),
    {
        match self {
            Schema::Struct(fields) => have_different_names(fields.as_slice()),
            _ => true,
        }
    }

    /// The number of scalars that the schema declares; `None` for a
    /// sequence.
    pub fn len(&self) -> (n: Option<usize>)
        ensures
            match n {
                Some(n) => self.declared() == Some(n as int),
                None => self.declared() is None,
            },
    {
        match self {
            Schema::Struct(fields) => Some(fields.len()),
            Schema::Tuple(kinds) => Some(kinds.len()),
            Schema::Sequence(_) => None,
        }
    }

    /// The kind of the scalar at position `i`, if there is one. A sequence
    /// has one at every position.
    pub fn kind(&self, i: usize) -> (kind: Option<Kind>)
        ensures
            kind == (if self.declared() matches Some(n) && i >= n {
                None
            } else {
                Some(self.kind_at(i as int))
            }),
    {
        match self {
            Schema::Struct(fields) => if i < fields.len() {
                Some(fields[i].kind)
            } else {
                None
            },
            Schema::Tuple(kinds) => if i < kinds.len() {
                Some(kinds[i])
            } else {
                None
            },
            Schema::Sequence(kind) => Some(*kind),
        }
    }
}

/// Whether reading a scalar of `kind` gives a value.
pub open spec fn scalar_read_succeeds<F, P: Fn(FloatWidth, &str) -> Result<F, ParseFloatError>>(
    kind: Kind,
    field: Seq<char>,
    remaining: Seq<Seq<u8>>,
    parse_float: P,
) -> bool {
    exists|value: Value<F>| #[trigger]
        scalar_reads_as(kind, field, remaining, parse_float, Ok::<Value<F>, DeError>(value))
}

/// Whether `r` is what reading `tokens` by `schema` gives.
///
/// A record and a tuple hold the scalars that they declare; a sequence holds
/// one scalar for each token, and is refused outright if its kind is a shape
/// that tokens cannot hold. The scalars are read in order, the scalar at
/// position `i` from the token at position `i`. The first one that cannot be
/// read ends the reading with its failure; otherwise the result holds one
/// value for each scalar. Tokens beyond the last scalar are not looked at.
pub open spec fn schema_reads_as<F, P: Fn(FloatWidth, &str) -> Result<F, ParseFloatError>>(
    schema: Schema,
    tokens: Seq<Seq<u8>>,
    parse_float: P,
    r: Result<Vec<Value<F>>, DeError>,
) -> bool {
    let count = schema.count(tokens.len() as int);
    if schema.refused_as() is Some {
        fails_with(r, DeErrorView::UnsupportedType { typ: schema.refused_as()->0 })
    } else {
        match r {
            Ok(values) => {
                &&& values@.len() == count
                &&& count <= tokens.len()
                &&& forall|i: int|
                    0 <= i < count ==> scalar_reads_as(
                        schema.kind_at(i),
                        schema.name_at(i),
                        tokens.skip(i),
                        parse_float,
                        Ok(#[trigger] values@[i]),
                    )
            },
            Err(e) => exists|at: int|
                {
                    &&& 0 <= at < count
                    &&& at <= tokens.len()
                    &&& #[trigger] scalar_reads_as::<F, P>(
                        schema.kind_at(at),
                        schema.name_at(at),
                        tokens.skip(at),
                        parse_float,
                        Err(e),
                    )
                    &&& forall|i: int|
                        0 <= i < at ==> #[trigger] scalar_read_succeeds::<F, P>(
                            schema.kind_at(i),
                            schema.name_at(i),
                            tokens.skip(i),
                            parse_float,
                        )
                },
        }
    }
}

/// A sequence of scalars takes every token: where the reading succeeds, the
/// result holds as many values as the text has tokens.
pub proof fn lemma_sequence_takes_every_token<
    F,
    P: Fn(FloatWidth, &str) -> Result<F, ParseFloatError>,
>(kind: Kind, tokens: Seq<Seq<u8>>, parse_float: P, values: Vec<Value<F>>)
    requires
        schema_reads_as(Schema::Sequence(kind), tokens, parse_float, Ok(values)),
    ensures
        values@.len() == tokens.len(),
        kind.refused_as() is None,
{
}

/// Reads the values that `s` holds by `schema`. `parse_float` converts the
/// tokens of floating-point scalars; it is told the width that the schema
/// declares.
pub fn from_str<F, P: Fn(FloatWidth, &str) -> Result<F, ParseFloatError>>(
    s: &str,
    schema: &Schema,
    parse_float: &P,
) -> (r: Result<Vec<Value<F>>, DeError>)
    requires
        forall|width: FloatWidth, text: &str| call_requires(*parse_float, (width, text)),
    ensures
        schema_reads_as(*schema, tokens(s.spec_bytes()), *parse_float, r),
{
    let ghost all = tokens(s.spec_bytes());
    let ghost count = schema.count(all.len() as int);
    let mut de = Deserializer::from_str(s);
    let declared = schema.len();
    match schema {
        Schema::Sequence(kind) => match kind.refusal() {
            Some(typ) => {
                return Err(DeError::unsupported_type(typ));
            },
            None => {},
        },
        _ => {},
    }
    let mut values: Vec<Value<F>> = Vec::new();
    let mut at: usize = 0;
    let mut more = match declared {
        Some(n) => at < n,
        None => !de.at_end(),
    };
    assert(all.skip(0) =~= all);
    while more
        invariant
            all == tokens(s.spec_bytes()),
            count == schema.count(all.len() as int),
            schema.refused_as() is None,
            match declared {
                Some(n) => schema.declared() == Some(n as int),
                None => schema.declared() is None,
            },
            at <= count,
            at <= all.len(),
            more == (at < count),
            values@.len() == at,
            de.remaining() == all.skip(at as int),
            !(*schema is Struct) ==> de.context() is None,
            forall|width: FloatWidth, text: &str| call_requires(*parse_float, (width, text)),
            forall|i: int|
                0 <= i < at ==> scalar_reads_as(
                    schema.kind_at(i),
                    schema.name_at(i),
                    all.skip(i),
                    *parse_float,
                    Ok(#[trigger] values@[i]),
                ),
        decreases count - at,
    {
        let kind = match schema {
            Schema::Struct(fields) => {
                de.enter_field(fields[at].name);
                fields[at].kind
            },
            Schema::Tuple(kinds) => kinds[at],
            Schema::Sequence(kind) => *kind,
        };
        match de.deserialize(kind, parse_float) {
            Ok(value) => {
                let ghost shown = value;
                let ghost before = values@;
                values.push(value);
                proof {
                    assert(all.skip(at as int).drop_first() =~= all.skip(at + 1));
                    assert forall|i: int| 0 <= i < at + 1 implies scalar_reads_as(
                        schema.kind_at(i),
                        schema.name_at(i),
                        all.skip(i),
                        *parse_float,
                        Ok(#[trigger] values@[i]),
                    ) by {
                        if i < at {
                            assert(values@[i] == before[i]);
                        } else {
                            assert(values@[i] == shown);
                        }
                    }
                }
            },
            Err(e) => {
                proof {
                    assert(scalar_reads_as::<F, P>(
                        schema.kind_at(at as int),
                        schema.name_at(at as int),
                        all.skip(at as int),
                        *parse_float,
                        Err(e),
                    ));
                    assert forall|i: int| 0 <= i < at implies #[trigger] scalar_read_succeeds::<
                        F,
                        P,
                    >(schema.kind_at(i), schema.name_at(i), all.skip(i), *parse_float) by {
                        assert(scalar_reads_as(
                            schema.kind_at(i),
                            schema.name_at(i),
                            all.skip(i),
                            *parse_float,
                            Ok::<Value<F>, DeError>(values@[i]),
                        ));
                    }
                }
                return Err(e);
            },
        }
        at = values.len();
        more = match declared {
            Some(n) => at < n,
            None => !de.at_end(),
        };
    }
    Ok(values)
}

} // verus!
