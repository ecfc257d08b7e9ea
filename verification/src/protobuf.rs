//! The protobuf wire format: keys, numbers, texts and byte strings.
//!
//! A message is a sequence of fields. A field is a key, which holds the field's
//! number and the kind of what follows, and a value. What a message does with a
//! field is given by a step; a message is read by taking one step per field.

use vstd::prelude::*;
use vstd::utf8::{decode_utf8, encode_utf8, valid_utf8};

use prost::encoding::{DecodeContext, WireType};

verus! {

/// An error of the prost crate.
#[verifier::external_type_specification]
#[verifier::external_body]
pub struct ExProtobufError(prost::DecodeError);

/// The kind of a field's value.
#[derive(Debug, Clone, Copy, PartialEq, Eq, Structural)]
pub enum WireKind {
    Varint,
    SixtyFourBit,
    LengthDelimited,
    StartGroup,
    EndGroup,
    ThirtyTwoBit,
}

impl WireKind {
    pub open spec fn number(self) -> nat {
        match self {
            WireKind::Varint => 0,
            WireKind::SixtyFourBit => 1,
            WireKind::LengthDelimited => 2,
            WireKind::StartGroup => 3,
            WireKind::EndGroup => 4,
            WireKind::ThirtyTwoBit => 5,
        }
    }

    /// The number that stands for the kind.
    pub fn code(self) -> (code: u64)
        ensures
            code == self.number(),
    {
        match self {
            WireKind::Varint => 0,
            WireKind::SixtyFourBit => 1,
            WireKind::LengthDelimited => 2,
            WireKind::StartGroup => 3,
            WireKind::EndGroup => 4,
            WireKind::ThirtyTwoBit => 5,
        }
    }

    pub open spec fn of(number: nat) -> Option<WireKind> {
        if number == 0 {
            Some(WireKind::Varint)
        } else if number == 1 {
            Some(WireKind::SixtyFourBit)
        } else if number == 2 {
            Some(WireKind::LengthDelimited)
        } else if number == 3 {
            Some(WireKind::StartGroup)
        } else if number == 4 {
            Some(WireKind::EndGroup)
        } else if number == 5 {
            Some(WireKind::ThirtyTwoBit)
        } else {
            None
        }
    }
}

// Writing.

/// A number in base 128, least significant digit first; every digit but the
/// last has its top bit set.
pub open spec fn varint(value: nat) -> Seq<u8>
    decreases value,
{
    if value < 128 {
        seq![value as u8]
    } else {
        seq![(value % 128 + 128) as u8] + varint(value / 128)
    }
}

pub open spec fn key(number: u32, kind: WireKind) -> Seq<u8> {
    varint((number * 8 + kind.number()) as nat)
}

pub open spec fn uint64_field(number: u32, value: u64) -> Seq<u8> {
    key(number, WireKind::Varint) + varint(value as nat)
}

pub open spec fn bool_field(number: u32, value: bool) -> Seq<u8> {
    key(number, WireKind::Varint) + varint(
        if value {
            1
        } else {
            0
        },
    )
}

pub open spec fn bytes_field(number: u32, value: Seq<u8>) -> Seq<u8> {
    key(number, WireKind::LengthDelimited) + varint(value.len()) + value
}

pub open spec fn text_field(number: u32, value: Seq<char>) -> Seq<u8> {
    bytes_field(number, encode_utf8(value))
}

/// The numbers that a field can have.
pub open spec fn field_number(number: u32) -> bool {
    1 <= number <= 536_870_911
}

/// Calls `encode_key` of prost: the field's number and the kind of its value.
#[verifier::external_body]
pub(crate) fn encode_key(number: u32, kind: WireKind, buffer: &mut Vec<u8>)
    requires
        field_number(number),
    ensures
        final(buffer)@ == old(buffer)@ + key(number, kind),
{
    let wire_type = match kind {
        WireKind::Varint => WireType::Varint,
        WireKind::SixtyFourBit => WireType::SixtyFourBit,
        WireKind::LengthDelimited => WireType::LengthDelimited,
        WireKind::StartGroup => WireType::StartGroup,
        WireKind::EndGroup => WireType::EndGroup,
        WireKind::ThirtyTwoBit => WireType::ThirtyTwoBit,
    };
    prost::encoding::encode_key(number, wire_type, buffer);
}

/// Calls `uint64::encode` of prost: the key, then the number.
#[verifier::external_body]
pub(crate) fn encode_uint64(number: u32, value: u64, buffer: &mut Vec<u8>)
    requires
        field_number(number),
    ensures
        final(buffer)@ == old(buffer)@ + uint64_field(number, value),
{
    prost::encoding::uint64::encode(number, &value, buffer);
}

/// Calls `bool::encode` of prost: the key, then zero or one.
#[verifier::external_body]
pub(crate) fn encode_bool(number: u32, value: bool, buffer: &mut Vec<u8>)
    requires
        field_number(number),
    ensures
        final(buffer)@ == old(buffer)@ + bool_field(number, value),
{
    prost::encoding::bool::encode(number, &value, buffer);
}

/// Calls `string::encode` of prost: the key, the length in bytes, the UTF-8 bytes.
#[verifier::external_body]
pub(crate) fn encode_text(number: u32, value: &String, buffer: &mut Vec<u8>)
    requires
        field_number(number),
    ensures
        final(buffer)@ == old(buffer)@ + text_field(number, value@),
{
    prost::encoding::string::encode(number, value, buffer);
}

/// Calls `bytes::encode` of prost: the key, the length, the bytes.
#[verifier::external_body]
pub(crate) fn encode_bytes(number: u32, value: &Vec<u8>, buffer: &mut Vec<u8>)
    requires
        field_number(number),
    ensures
        final(buffer)@ == old(buffer)@ + bytes_field(number, value@),
{
    prost::encoding::bytes::encode(number, value, buffer);
}

// Reading. What is read comes with the number of bytes that it took.

/// The number at the start of `bytes`, after `digits` digits. A number has at
/// most ten digits, and fits in 64 bits.
pub open spec fn read_digits(bytes: Seq<u8>, digits: nat) -> Option<(nat, nat)>
    decreases 10 - digits,
{
    if digits >= 10 || bytes.len() == 0 {
        None
    } else if bytes[0] < 128 {
        if digits == 9 && bytes[0] > 1 {
            None
        } else {
            Some((bytes[0] as nat, 1nat))
        }
    } else {
        match read_digits(bytes.drop_first(), digits + 1) {
            Some((value, len)) => Some(((bytes[0] - 128 + 128 * value) as nat, len + 1)),
            None => None,
        }
    }
}

pub open spec fn read_varint(bytes: Seq<u8>) -> Option<(nat, nat)> {
    read_digits(bytes, 0)
}

/// A field's number and kind.
pub open spec fn read_key(bytes: Seq<u8>) -> Option<(u32, WireKind, nat)> {
    match read_varint(bytes) {
        Some((value, len)) => match WireKind::of(value % 8) {
            Some(kind) => if value > u32::MAX || value / 8 == 0 {
                None
            } else {
                Some(((value / 8) as u32, kind, len))
            },
            None => None,
        },
        None => None,
    }
}

pub open spec fn read_uint64(kind: WireKind, bytes: Seq<u8>) -> Option<(u64, nat)> {
    match read_varint(bytes) {
        Some((value, len)) => if kind == WireKind::Varint {
            Some((value as u64, len))
        } else {
            None
        },
        None => None,
    }
}

pub open spec fn read_bool(kind: WireKind, bytes: Seq<u8>) -> Option<(bool, nat)> {
    match read_varint(bytes) {
        Some((value, len)) => if kind == WireKind::Varint {
            Some((value != 0, len))
        } else {
            None
        },
        None => None,
    }
}

pub open spec fn read_bytes(kind: WireKind, bytes: Seq<u8>) -> Option<(Seq<u8>, nat)> {
    match read_varint(bytes) {
        Some((length, len)) => if kind == WireKind::LengthDelimited && len + length
            <= bytes.len() {
            Some((bytes.subrange(len as int, (len + length) as int), len + length))
        } else {
            None
        },
        None => None,
    }
}

pub open spec fn read_text(kind: WireKind, bytes: Seq<u8>) -> Option<(Seq<char>, nat)> {
    match read_bytes(kind, bytes) {
        Some((value, len)) => if valid_utf8(value) {
            Some((decode_utf8(value), len))
        } else {
            None
        },
        None => None,
    }
}

/// How deep messages and groups may nest in each other.
pub const DEPTH_LIMIT: u32 = 100;

/// How many bytes a value takes that is passed over, where `depth` more levels
/// may be entered.
pub open spec fn passed(depth: nat, number: u32, kind: WireKind, bytes: Seq<u8>) -> Option<nat>
    decreases depth, bytes.len(), 1nat,
{
    if depth == 0 {
        None
    } else {
        match kind {
            WireKind::Varint => match read_varint(bytes) {
                Some((_, len)) => Some(len),
                None => None,
            },
            WireKind::SixtyFourBit => if bytes.len() >= 8 {
                Some(8nat)
            } else {
                None
            },
            WireKind::LengthDelimited => match read_bytes(kind, bytes) {
                Some((_, len)) => Some(len),
                None => None,
            },
            WireKind::StartGroup => passed_group(depth, number, bytes),
            WireKind::EndGroup => None,
            WireKind::ThirtyTwoBit => if bytes.len() >= 4 {
                Some(4nat)
            } else {
                None
            },
        }
    }
}

/// How many bytes the rest of group `number` takes: fields, each one level down,
/// and the end of that group.
pub open spec fn passed_group(depth: nat, number: u32, bytes: Seq<u8>) -> Option<nat>
    decreases depth, bytes.len(), 0nat,
{
    match read_key(bytes) {
        None => None,
        Some((inner, kind, len)) => if kind == WireKind::EndGroup {
            if inner == number {
                Some(len)
            } else {
                None
            }
        } else if depth == 0 || len == 0 {
            None
        } else {
            match passed((depth - 1) as nat, inner, kind, bytes.skip(len as int)) {
                None => None,
                Some(taken) => if len + taken > bytes.len() {
                    None
                } else {
                    match passed_group(depth, number, bytes.skip((len + taken) as int)) {
                        None => None,
                        Some(rest) => Some(len + taken + rest),
                    }
                },
            }
        },
    }
}

/// How many bytes the value of a field takes that nobody reads, in a message that
/// lies `level` levels down.
pub open spec fn skipped(level: nat, number: u32, kind: WireKind, bytes: Seq<u8>) -> Option<nat> {
    passed((DEPTH_LIMIT - level) as nat, number, kind, bytes)
}

// Why something cannot be read. Each error depends on what is read alone.

/// The error of a key that cannot be read.
pub uninterp spec fn key_error(bytes: Seq<u8>) -> prost::DecodeError;

/// The error of a number that cannot be read.
pub uninterp spec fn uint64_error(kind: WireKind, bytes: Seq<u8>) -> prost::DecodeError;

/// The error of a truth value that cannot be read.
pub uninterp spec fn bool_error(kind: WireKind, bytes: Seq<u8>) -> prost::DecodeError;

/// The error of a byte string that cannot be read.
pub uninterp spec fn bytes_error(kind: WireKind, bytes: Seq<u8>) -> prost::DecodeError;

/// The error of a text that cannot be read.
pub uninterp spec fn text_error(kind: WireKind, bytes: Seq<u8>) -> prost::DecodeError;

/// The error of a value that cannot be passed over.
pub uninterp spec fn skip_error(number: u32, kind: WireKind, bytes: Seq<u8>) -> prost::DecodeError;

/// How prost words an error.
pub uninterp spec fn protobuf_error_words(error: prost::DecodeError) -> Seq<char>;

/// Calls `to_string` of prost's error. Its wording depends on the error alone, and
/// has a name.
#[verifier::external_body]
pub(crate) fn protobuf_error_text(error: &prost::DecodeError) -> (text: String)
    ensures
        text@ == protobuf_error_words(*error),
{
    error.to_string()
}

/// A group that holds one field and nothing else, after its key.
pub open spec fn grouped(number: u32, kind: WireKind, value: Seq<u8>) -> Seq<u8> {
    key(number, kind) + value + key(1, WireKind::EndGroup)
}

/// How many bytes the value of a field takes that nobody reads, or why it cannot be
/// passed over. Where that is for its depth alone, the error is that of a group which
/// holds the field.
pub open spec fn skip_outcome(level: nat, number: u32, kind: WireKind, bytes: Seq<u8>) -> Result<
    nat,
    prost::DecodeError,
> {
    match skipped(level, number, kind, bytes) {
        Some(len) => Ok(len),
        None => match skipped(0, number, kind, bytes) {
            Some(len) if level > 0 => Err(
                skip_error(
                    1,
                    WireKind::StartGroup,
                    grouped(number, kind, bytes.take(len as int)),
                ),
            ),
            _ => Err(skip_error(number, kind, bytes)),
        },
    }
}

/// Calls `decode_key` of prost. It fails on a number that is cut short or too
/// long, on one above 32 bits, on an unknown kind and on field zero.
#[verifier::external_body]
pub(crate) fn decode_key<'a>(bytes: &'a [u8]) -> (result: Result<
    (u32, WireKind, &'a [u8]),
    prost::DecodeError,
>)
    ensures
        match result {
            Ok(read) => read_key(bytes@) matches Some(expected) && expected.0 == read.0
                && expected.1 == read.1 && read.2@ == bytes@.skip(expected.2 as int) && expected.2
                <= bytes@.len(),
            Err(error) => read_key(bytes@) is None && error == key_error(bytes@),
        },
{
    let mut buffer = bytes;
    let (number, wire_type) = prost::encoding::decode_key(&mut buffer)?;
    let kind = match wire_type {
        WireType::Varint => WireKind::Varint,
        WireType::SixtyFourBit => WireKind::SixtyFourBit,
        WireType::LengthDelimited => WireKind::LengthDelimited,
        WireType::StartGroup => WireKind::StartGroup,
        WireType::EndGroup => WireKind::EndGroup,
        WireType::ThirtyTwoBit => WireKind::ThirtyTwoBit,
    };
    Ok((number, kind, buffer))
}

/// Calls `uint64::merge` of prost: a number of the right kind.
#[verifier::external_body]
pub(crate) fn decode_uint64<'a>(kind: WireKind, bytes: &'a [u8]) -> (result: Result<
    (u64, &'a [u8]),
    prost::DecodeError,
>)
    ensures
        match result {
            Ok(read) => read_uint64(kind, bytes@) matches Some(expected) && expected.0 == read.0
                && read.1@ == bytes@.skip(expected.1 as int) && expected.1 <= bytes@.len(),
            Err(error) => read_uint64(kind, bytes@) is None && error == uint64_error(kind, bytes@),
        },
{
    let mut buffer = bytes;
    let mut value: u64 = 0;
    let wire_type = WireType::try_from(kind.code())?;
    let context = DecodeContext::default();
    prost::encoding::uint64::merge(wire_type, &mut value, &mut buffer, context)?;
    Ok((value, buffer))
}

/// Calls `bool::merge` of prost: a number of the right kind, true unless zero.
#[verifier::external_body]
pub(crate) fn decode_bool<'a>(kind: WireKind, bytes: &'a [u8]) -> (result: Result<
    (bool, &'a [u8]),
    prost::DecodeError,
>)
    ensures
        match result {
            Ok(read) => read_bool(kind, bytes@) matches Some(expected) && expected.0 == read.0
                && read.1@ == bytes@.skip(expected.1 as int) && expected.1 <= bytes@.len(),
            Err(error) => read_bool(kind, bytes@) is None && error == bool_error(kind, bytes@),
        },
{
    let mut buffer = bytes;
    let mut value = false;
    let wire_type = WireType::try_from(kind.code())?;
    let context = DecodeContext::default();
    prost::encoding::bool::merge(wire_type, &mut value, &mut buffer, context)?;
    Ok((value, buffer))
}

/// Calls `bytes::merge` of prost: a length and that many bytes, of the right kind.
#[verifier::external_body]
pub(crate) fn decode_bytes<'a>(kind: WireKind, bytes: &'a [u8]) -> (result: Result<
    (Vec<u8>, &'a [u8]),
    prost::DecodeError,
>)
    ensures
        match result {
            Ok(read) => read_bytes(kind, bytes@) matches Some(expected) && expected.0 == read.0@
                && read.1@ == bytes@.skip(expected.1 as int) && expected.1 <= bytes@.len(),
            Err(error) => read_bytes(kind, bytes@) is None && error == bytes_error(kind, bytes@),
        },
{
    let mut buffer = bytes;
    let mut value: Vec<u8> = Vec::new();
    let wire_type = WireType::try_from(kind.code())?;
    let context = DecodeContext::default();
    prost::encoding::bytes::merge(wire_type, &mut value, &mut buffer, context)?;
    Ok((value, buffer))
}

/// Calls `string::merge` of prost: as for bytes, which have to be UTF-8.
#[verifier::external_body]
pub(crate) fn decode_text<'a>(kind: WireKind, bytes: &'a [u8]) -> (result: Result<
    (String, &'a [u8]),
    prost::DecodeError,
>)
    ensures
        match result {
            Ok(read) => read_text(kind, bytes@) matches Some(expected) && expected.0 == read.0@
                && read.1@ == bytes@.skip(expected.1 as int) && expected.1 <= bytes@.len(),
            Err(error) => read_text(kind, bytes@) is None && error == text_error(kind, bytes@),
        },
{
    let mut buffer = bytes;
    let mut value = String::new();
    let wire_type = WireType::try_from(kind.code())?;
    let context = DecodeContext::default();
    prost::encoding::string::merge(wire_type, &mut value, &mut buffer, context)?;
    Ok((value, buffer))
}

/// Calls `skip_field` of prost, with the context of a message that lies in no
/// other: it passes over one value. A group is passed over with all that is in it,
/// as far as prost's limit on the depth lets it.
#[verifier::external_body]
pub(crate) fn skip_field<'a>(number: u32, kind: WireKind, bytes: &'a [u8]) -> (result: Result<
    &'a [u8],
    prost::DecodeError,
>)
    ensures
        match result {
            Ok(rest) => skipped(0, number, kind, bytes@) matches Some(len) && rest@ == bytes@.skip(
                len as int,
            ) && len <= bytes@.len(),
            Err(error) => skipped(0, number, kind, bytes@) is None && error == skip_error(number, kind, bytes@),
        },
{
    let mut buffer = bytes;
    let wire_type = WireType::try_from(kind.code())?;
    let context = DecodeContext::default();
    prost::encoding::skip_field(wire_type, number, &mut buffer, context)?;
    Ok(buffer)
}

// Messages.

/// Reads a message: one step per field, from `message` on. A step says what the
/// message becomes and how many bytes the field's value took.
pub open spec fn merged<M>(
    step: spec_fn(M, u32, WireKind, Seq<u8>) -> Result<(M, nat), prost::DecodeError>,
    message: M,
    bytes: Seq<u8>,
) -> Result<M, prost::DecodeError>
    decreases bytes.len(),
{
    if bytes.len() == 0 {
        Ok(message)
    } else {
        match read_key(bytes) {
            None => Err(key_error(bytes)),
            Some((number, kind, len)) => match step(message, number, kind, bytes.skip(len as int)) {
                Err(error) => Err(error),
                Ok((next, taken)) => if 0 < len && len + taken <= bytes.len() {
                    merged(step, next, bytes.skip((len + taken) as int))
                } else {
                    Err(key_error(bytes))
                },
            },
        }
    }
}

/// A message in which every field is skipped.
pub open spec fn unread_step() -> spec_fn((), u32, WireKind, Seq<u8>) -> Result<
    ((), nat),
    prost::DecodeError,
> {
    |message: (), number: u32, kind: WireKind, bytes: Seq<u8>|
        match skip_outcome(0, number, kind, bytes) {
            Ok(len) => Ok(((), len)),
            Err(error) => Err(error),
        }
}

/// Reads `bytes` as a sequence of fields, of which nothing is kept.
pub open spec fn fields_read(bytes: Seq<u8>) -> Result<(), prost::DecodeError> {
    merged(unread_step(), (), bytes)
}

/// Whether `bytes` are a sequence of fields.
pub open spec fn well_formed(bytes: Seq<u8>) -> bool {
    fields_read(bytes) is Ok
}

proof fn lemma_read_digits_len(bytes: Seq<u8>, digits: nat)
    ensures
        read_digits(bytes, digits) matches Some((_, len)) ==> 0 < len <= bytes.len(),
    decreases 10 - digits,
{
    if digits < 10 && bytes.len() > 0 && bytes[0] >= 128 {
        lemma_read_digits_len(bytes.drop_first(), digits + 1);
    }
}

/// A key takes at least one byte, and no more than there are.
pub proof fn lemma_read_key_len(bytes: Seq<u8>)
    ensures
        read_key(bytes) matches Some((_, _, len)) ==> 0 < len <= bytes.len(),
{
    lemma_read_digits_len(bytes, 0);
}

proof fn lemma_same_digits(bytes: Seq<u8>, other: Seq<u8>, digits: nat)
    requires
        read_digits(bytes, digits) matches Some((_, len)) && len <= other.len() && other.take(
            len as int,
        ) == bytes.take(len as int),
    ensures
        read_digits(other, digits) == read_digits(bytes, digits),
    decreases 10 - digits,
{
    lemma_read_digits_len(bytes, digits);
    let len = (read_digits(bytes, digits)->0).1;
    assert(bytes.take(len as int)[0] == other.take(len as int)[0]);
    if bytes[0] >= 128 {
        let tail = bytes.drop_first();
        let other_tail = other.drop_first();
        assert(other_tail.take(len - 1) =~= other.take(len as int).drop_first());
        assert(tail.take(len - 1) =~= bytes.take(len as int).drop_first());
        lemma_same_digits(tail, other_tail, digits + 1);
    }
}

proof fn lemma_same_key(bytes: Seq<u8>, other: Seq<u8>)
    requires
        read_key(bytes) matches Some((_, _, len)) && len <= other.len() && other.take(len as int)
            == bytes.take(len as int),
    ensures
        read_key(other) == read_key(bytes),
{
    lemma_same_digits(bytes, other, 0);
}

/// What is passed over lies within the bytes, and does not depend on what follows.
proof fn lemma_passed_alone(
    depth: nat,
    number: u32,
    kind: WireKind,
    bytes: Seq<u8>,
    other: Seq<u8>,
)
    ensures
        passed(depth, number, kind, bytes) matches Some(len) ==> {
            &&& len <= bytes.len()
            &&& len <= other.len() && other.take(len as int) == bytes.take(len as int) ==> passed(
                depth,
                number,
                kind,
                other,
            ) == Some(len)
        },
    decreases depth, bytes.len(), 1nat,
{
    if passed(depth, number, kind, bytes) is Some {
        let len = passed(depth, number, kind, bytes)->0;
        let same = len <= other.len() && other.take(len as int) == bytes.take(len as int);
        lemma_read_digits_len(bytes, 0);
        match kind {
            WireKind::StartGroup => {
                lemma_passed_group_alone(depth, number, bytes, other);
            },
            WireKind::Varint => {
                if same {
                    lemma_same_digits(bytes, other, 0);
                }
            },
            WireKind::LengthDelimited => {
                let head = (read_varint(bytes)->0).1;
                if same {
                    assert(other.take(head as int) =~= other.take(len as int).take(head as int));
                    assert(bytes.take(head as int) =~= bytes.take(len as int).take(head as int));
                    lemma_same_digits(bytes, other, 0);
                }
            },
            _ => {},
        }
    }
}

proof fn lemma_passed_group_alone(depth: nat, number: u32, bytes: Seq<u8>, other: Seq<u8>)
    ensures
        passed_group(depth, number, bytes) matches Some(len) ==> {
            &&& len <= bytes.len()
            &&& len <= other.len() && other.take(len as int) == bytes.take(len as int)
                ==> passed_group(depth, number, other) == Some(len)
        },
    decreases depth, bytes.len(), 0nat,
{
    if passed_group(depth, number, bytes) is Some {
        let all = passed_group(depth, number, bytes)->0;
        let same = all <= other.len() && other.take(all as int) == bytes.take(all as int);
        lemma_read_key_len(bytes);
        let (inner, kind, len) = read_key(bytes)->0;
        if kind == WireKind::EndGroup {
            if same {
                lemma_same_key(bytes, other);
            }
        } else {
            let value = bytes.skip(len as int);
            let taken = passed((depth - 1) as nat, inner, kind, value)->0;
            let rest = bytes.skip((len + taken) as int);
            let tail = passed_group(depth, number, rest)->0;
            let other_value = other.skip(len as int);
            let other_rest = other.skip((len + taken) as int);
            lemma_passed_alone((depth - 1) as nat, inner, kind, value, other_value);
            lemma_passed_group_alone(depth, number, rest, other_rest);
            if same {
                let whole = bytes.take(all as int);
                assert(other.take(len as int) =~= whole.take(len as int));
                assert(bytes.take(len as int) =~= whole.take(len as int));
                lemma_same_key(bytes, other);
                assert(other_value.take(taken as int) =~= whole.subrange(
                    len as int,
                    (len + taken) as int,
                ));
                assert(value.take(taken as int) =~= whole.subrange(
                    len as int,
                    (len + taken) as int,
                ));
                assert(other_rest.take(tail as int) =~= whole.skip((len + taken) as int));
                assert(rest.take(tail as int) =~= whole.skip((len + taken) as int));
            }
        }
    }
}

/// What is passed over at one depth is passed over where there is more of it.
proof fn lemma_passed_higher(depth: nat, number: u32, kind: WireKind, bytes: Seq<u8>)
    ensures
        passed(depth, number, kind, bytes) is Some ==> passed(depth + 1, number, kind, bytes)
            == passed(depth, number, kind, bytes),
    decreases depth, bytes.len(), 1nat,
{
    if depth > 0 && kind == WireKind::StartGroup {
        lemma_passed_group_higher(depth, number, bytes);
    }
}

proof fn lemma_passed_group_higher(depth: nat, number: u32, bytes: Seq<u8>)
    ensures
        passed_group(depth, number, bytes) is Some ==> passed_group(depth + 1, number, bytes)
            == passed_group(depth, number, bytes),
    decreases depth, bytes.len(), 0nat,
{
    if passed_group(depth, number, bytes) is Some {
        let (inner, kind, len) = read_key(bytes)->0;
        if kind != WireKind::EndGroup {
            let value = bytes.skip(len as int);
            let taken = passed((depth - 1) as nat, inner, kind, value)->0;
            lemma_passed_higher((depth - 1) as nat, inner, kind, value);
            lemma_passed_group_higher(depth, number, bytes.skip((len + taken) as int));
        }
    }
}

/// A field that is put into a group is passed over there exactly where it is
/// passed over one level down.
proof fn lemma_grouped(depth: nat, number: u32, kind: WireKind, value: Seq<u8>, taken: nat)
    requires
        depth > 0,
        field_number(number),
        passed(depth, number, kind, value) == Some(taken),
    ensures
        ({
            let group = grouped(number, kind, value.take(taken as int));
            let below = passed((depth - 1) as nat, number, kind, value);
            &&& taken <= value.len()
            &&& below is Some ==> below == Some(taken)
            &&& below is Some == passed_group(depth, 1, group) is Some
        }),
{
    let head = key(number, kind);
    let close = key(1, WireKind::EndGroup);
    let kept = value.take(taken as int);
    let group = grouped(number, kind, kept);
    let inside = group.skip(head.len() as int);
    let below = (depth - 1) as nat;
    a_written_key_is_read_back(number, kind, kept + close);
    assert(group =~= head + (kept + close));
    assert(inside =~= kept + close);
    lemma_passed_alone(depth, number, kind, value, inside);
    assert(inside.take(taken as int) =~= value.take(taken as int));
    lemma_passed_higher(below, number, kind, value);
    lemma_passed_higher(below, number, kind, inside);
    lemma_passed_alone(below, number, kind, value, inside);
    lemma_passed_alone(below, number, kind, inside, value);
    let end = group.skip((head.len() + taken) as int);
    a_written_key_is_read_back(1, WireKind::EndGroup, Seq::empty());
    assert(end =~= close + Seq::empty());
    assert(passed_group(depth, 1, end) == Some(close.len()));
}

/// Passes over a value in a message that lies one level down. Such a value may nest
/// one level less, which is found out by passing over a group that holds nothing else.
pub(crate) fn skip_nested_field<'a>(number: u32, kind: WireKind, bytes: &'a [u8]) -> (result: Result<
    &'a [u8],
    prost::DecodeError,
>)
    requires
        field_number(number),
    ensures
        match result {
            Ok(rest) => skip_outcome(1, number, kind, bytes@) matches Ok(len) && rest@
                == bytes@.skip(len as int) && len <= bytes@.len(),
            Err(error) => skip_outcome(1, number, kind, bytes@) == Err::<nat, prost::DecodeError>(
                error,
            ),
        },
{
    proof {
        lemma_passed_higher(99, number, kind, bytes@);
    }
    let rest = match skip_field(number, kind, bytes) {
        Ok(rest) => rest,
        Err(error) => {
            return Err(error);
        },
    };
    let ghost taken = skipped(0, number, kind, bytes@)->0;
    let end: usize = bytes.len() - rest.len();
    assert(end == taken);
    let mut group: Vec<u8> = Vec::new();
    encode_key(number, kind, &mut group);
    let ghost head = group@;
    let mut i: usize = 0;
    while i < end
        invariant
            i <= end <= bytes@.len(),
            group@ == head + bytes@.take(i as int),
        decreases end - i,
    {
        group.push(bytes[i]);
        assert(group@ =~= head + bytes@.take(i + 1));
        i = i + 1;
    }
    encode_key(1, WireKind::EndGroup, &mut group);
    proof {
        lemma_grouped(100, number, kind, bytes@, taken);
        assert(group@ =~= grouped(number, kind, bytes@.take(taken as int)));
    }
    match skip_field(1, WireKind::StartGroup, group.as_slice()) {
        Ok(_) => Ok(rest),
        Err(error) => Err(error),
    }
}

/// The number of a field that was read is one that a field can have.
pub proof fn lemma_read_number(bytes: Seq<u8>)
    ensures
        read_key(bytes) matches Some((number, _, _)) ==> field_number(number),
{
}

/// Checks that `bytes` are a sequence of fields.
pub(crate) fn check_fields(bytes: &[u8]) -> (result: Result<(), prost::DecodeError>)
    ensures
        result == fields_read(bytes@),
{
    let mut rest = bytes;
    while rest.len() > 0
        invariant
            fields_read(bytes@) == fields_read(rest@),
        decreases rest@.len(),
    {
        proof {
            lemma_read_key_len(rest@);
        }
        let (number, kind, after) = match decode_key(rest) {
            Ok(read) => read,
            Err(error) => {
                return Err(error);
            },
        };
        let next = match skip_field(number, kind, after) {
            Ok(next) => next,
            Err(error) => {
                return Err(error);
            },
        };
        proof {
            let read = read_key(rest@)->0;
            let len = read.2;
            let taken = skipped(0, number, kind, after@)->0;
            assert(next@ =~= rest@.skip((len + taken) as int));
        }
        rest = next;
    }
    Ok(())
}

// What is written is read back.

proof fn lemma_read_written_digits(value: nat, digits: nat, rest: Seq<u8>)
    requires
        digits < 10,
        digits == 9 ==> value <= 1,
        digits < 9 ==> value < pow128(10 - digits),
        value <= u64::MAX,
        pow128(digits as int) * value <= u64::MAX,
    ensures
        read_digits(varint(value) + rest, digits) == Some((value, varint(value).len())),
    decreases value,
{
    let bytes = varint(value) + rest;
    if value < 128 {
        assert(bytes[0] == value as u8);
    } else {
        let first = (value % 128 + 128) as u8;
        assert(bytes[0] == first);
        assert(bytes.drop_first() =~= varint(value / 128) + rest);
        lemma_pow128(digits as int, value);
        lemma_read_written_digits(value / 128, digits + 1, rest);
    }
}

spec fn pow128(n: int) -> nat
    decreases n,
{
    if n <= 0 {
        1
    } else {
        128 * pow128(n - 1)
    }
}

proof fn lemma_pow128(digits: int, value: nat)
    requires
        0 <= digits < 10,
        value >= 128,
        pow128(digits) * value <= u64::MAX,
    ensures
        digits < 9,
        pow128(digits + 1) * (value / 128) <= u64::MAX,
        digits + 1 == 9 ==> value / 128 <= 1,
        digits + 1 < 9 ==> value / 128 < pow128(10 - (digits + 1)),
{
    reveal_with_fuel(pow128, 12);
    let next = value / 128;
    assert(pow128(digits + 1) * next <= pow128(digits) * value) by (nonlinear_arith)
        requires
            pow128(digits + 1) == 128 * pow128(digits),
            128 * next <= value,
    ;
    let p = pow128(digits);
    assert(p * 128 <= u64::MAX) by (nonlinear_arith)
        requires
            p * value <= u64::MAX,
            value >= 128,
    ;
    let q = pow128(digits + 1);
    assert(q * next <= u64::MAX);
    if digits + 1 == 9 {
        assert(q == 0x8000_0000_0000_0000);
        assert(next <= 1) by (nonlinear_arith)
            requires
                q == 0x8000_0000_0000_0000,
                q * next <= 0xffff_ffff_ffff_ffff,
        ;
    } else {
        let r = pow128(10 - (digits + 1));
        assert(q * r == pow128(10)) by {
            lemma_pow128_split(digits + 1, 10 - (digits + 1));
        }
        if next >= r {
            assert(q * next >= q * r) by (nonlinear_arith)
                requires
                    next >= r,
            ;
        }
    }
}

proof fn lemma_pow128_split(a: int, b: int)
    requires
        0 <= a,
        0 <= b,
    ensures
        pow128(a) * pow128(b) == pow128(a + b),
    decreases a,
{
    if a > 0 {
        lemma_pow128_split(a - 1, b);
        let x = pow128(a - 1);
        let y = pow128(b);
        assert((128 * x) * y == 128 * (x * y)) by (nonlinear_arith);
    } else {
        assert(pow128(0) * pow128(b) == pow128(b)) by (nonlinear_arith)
            requires
                pow128(0) == 1,
        ;
    }
}

/// A number that was written is read back.
pub proof fn a_written_number_is_read_back(value: u64, rest: Seq<u8>)
    ensures
        read_varint(varint(value as nat) + rest) == Some((value as nat, varint(value as nat).len())),
        varint(value as nat).len() > 0,
{
    reveal_with_fuel(pow128, 12);
    assert(pow128(0) * (value as nat) == value) by (nonlinear_arith)
        requires
            pow128(0) == 1,
    ;
    lemma_read_written_digits(value as nat, 0, rest);
}

/// A key that was written is read back.
pub proof fn a_written_key_is_read_back(number: u32, kind: WireKind, rest: Seq<u8>)
    requires
        field_number(number),
    ensures
        read_key(key(number, kind) + rest) == Some((number, kind, key(number, kind).len())),
        key(number, kind).len() > 0,
{
    let value = (number * 8 + kind.number()) as u64;
    a_written_number_is_read_back(value, rest);
    assert(value % 8 == kind.number());
    assert(value / 8 == number);
}

/// A number, a truth value, a byte string or a text that was written as a field
/// is read back as that field's value.
pub proof fn a_written_field_is_read_back(
    number: u32,
    value: u64,
    flag: bool,
    bytes: Seq<u8>,
    text: Seq<char>,
    rest: Seq<u8>,
)
    requires
        bytes.len() <= u64::MAX,
        encode_utf8(text).len() <= u64::MAX,
    ensures
        ({
            let written = varint(value as nat);
            read_uint64(WireKind::Varint, written + rest) == Some((value, written.len()))
        }),
        ({
            let written = varint(
                if flag {
                    1
                } else {
                    0
                },
            );
            read_bool(WireKind::Varint, written + rest) == Some((flag, written.len()))
        }),
        ({
            let written = varint(bytes.len()) + bytes;
            read_bytes(WireKind::LengthDelimited, written + rest) == Some((bytes, written.len()))
        }),
        ({
            let written = varint(encode_utf8(text).len()) + encode_utf8(text);
            read_text(WireKind::LengthDelimited, written + rest) == Some((text, written.len()))
        }),
{
    a_written_number_is_read_back(value, rest);
    a_written_number_is_read_back(
        if flag {
            1
        } else {
            0
        },
        rest,
    );
    lemma_bytes_read_back(bytes, rest);
    lemma_bytes_read_back(encode_utf8(text), rest);
    vstd::utf8::encode_utf8_valid_utf8(text);
    vstd::utf8::encode_utf8_decode_utf8(text);
}

proof fn lemma_bytes_read_back(bytes: Seq<u8>, rest: Seq<u8>)
    requires
        bytes.len() <= u64::MAX,
    ensures
        read_bytes(WireKind::LengthDelimited, varint(bytes.len()) + bytes + rest) == Some(
            (bytes, (varint(bytes.len()) + bytes).len()),
        ),
{
    let head = varint(bytes.len());
    let all = head + bytes + rest;
    a_written_number_is_read_back(bytes.len() as u64, bytes + rest);
    assert(all =~= head + (bytes + rest));
    assert(all.subrange(head.len() as int, (head.len() + bytes.len()) as int) =~= bytes);
}

} // verus!
