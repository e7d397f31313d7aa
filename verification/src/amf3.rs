//! The AMF3 value encoding, which the `amf` crate reads and writes.
//!
//! Nothing in here looks at the bytes of a value.  The crate's decoder and
//! encoder do that; what stands here is the loop round them, the check that
//! keeps the encoder from values it would not take, and the change between
//! the values of that crate and those of this one.

use crate::amf0::{grow, MAX_BODY};
use crate::container::AmfWrite;
use crate::cursor::{lemma_wrote_then, overlay, wrote, Writer};
use crate::document::{Amf3, Amf3Value, Pair, Sol};
use crate::error::{body_fault, value_fault, SolError};
use amf::amf3::{Decoder, Encoder, Value as Foreign};
use amf::error::DecodeError;
use byteorder::{BigEndian, ByteOrder, ReadBytesExt};
use core::time::Duration;
use vstd::prelude::*;
use vstd::utf8::encode_utf8;

verus! {

/// The decoder of the `amf` crate.
#[verifier::external_type_specification]
#[verifier::external_body]
#[verifier::reject_recursive_types(R)]
pub struct ExDecoder<R>(Decoder<R>);

/// The error of that decoder.
#[verifier::external_type_specification]
#[verifier::external_body]
pub struct ExDecodeError(DecodeError);

/// The value of the `amf` crate.
#[verifier::external_type_specification]
#[verifier::external_body]
pub struct ExForeign(Foreign);

/// A decoder over `bytes` that has read nothing of them.
pub uninterp spec fn amf3_start(bytes: Seq<u8>) -> Decoder<&'static [u8]>;

/// The bytes that a decoder over a slice has not read yet.
pub uninterp spec fn amf3_unread(decoder: Decoder<&[u8]>) -> Seq<u8>;

/// What `decode_utf8` gives on a decoder as it stands: the key, or the kind
/// of its failure.
pub uninterp spec fn amf3_key_read(decoder: Decoder<&[u8]>) -> Result<Seq<char>, SolError>;

/// The decoder as `decode_utf8` leaves it.
pub uninterp spec fn amf3_key_next(decoder: Decoder<&[u8]>) -> Decoder<&[u8]>;

/// What `decode` gives on a decoder as it stands: the value, or the kind of
/// its failure.
pub uninterp spec fn amf3_value_read(decoder: Decoder<&[u8]>) -> Result<Amf3Value, SolError>;

/// The decoder as `decode` leaves it.
pub uninterp spec fn amf3_value_next(decoder: Decoder<&[u8]>) -> Decoder<&[u8]>;

/// The decoder as the reading of one byte from its slice leaves it.
pub uninterp spec fn amf3_padding_next(decoder: Decoder<&[u8]>) -> Decoder<&[u8]>;

/// `amf::amf3::Decoder::new`: a decoder that has read nothing of `bytes`.
#[verifier::external_body]
fn amf3_decoder(bytes: &[u8]) -> (decoder: Decoder<&[u8]>)
    ensures
        decoder == amf3_start(bytes@),
        amf3_unread(decoder) == bytes@,
{
    Decoder::new(bytes)
}

/// `amf::amf3::Decoder::inner`: the slice that is left to read, here by
/// its length.  The decoder stays as it is.
#[verifier::external_body]
fn amf3_left(decoder: &mut Decoder<&[u8]>) -> (n: usize)
    ensures
        n == amf3_unread(*old(decoder)).len(),
        *final(decoder) == *old(decoder),
{
    decoder.inner().len()
}

/// `amf::amf3::Decoder::decode_utf8`: a key.  What it gives, and how it
/// leaves the decoder, depends on the decoder alone: the slice that is left
/// and the strings read so far.  Where it succeeds it has read one byte at
/// least.  Its error is told by `amf3_failure`.
#[verifier::external_body]
fn amf3_key(decoder: &mut Decoder<&[u8]>) -> (res: Result<String, SolError>)
    ensures
        match amf3_key_read(*old(decoder)) {
            Ok(key) => res is Ok && res->Ok_0@ == key,
            Err(e) => res is Err && res->Err_0 == e && value_fault(e),
        },
        *final(decoder) == amf3_key_next(*old(decoder)),
        res is Ok ==> amf3_unread(*final(decoder)).len() < amf3_unread(*old(decoder)).len(),
{
    decoder.decode_utf8().map_err(|e| amf3_failure(&e))
}

/// `amf::amf3::Decoder::decode`: a value, handed on as a value of this
/// crate.  What it gives, and how it leaves the decoder, depends on the
/// decoder alone: the slice that is left and the strings, traits and
/// objects read so far.  Where it succeeds it has read one byte at least.
/// Its error is told by `amf3_failure`.
#[verifier::external_body]
fn amf3_value(decoder: &mut Decoder<&[u8]>) -> (res: Result<Amf3Value, SolError>)
    ensures
        match amf3_value_read(*old(decoder)) {
            Ok(value) => res is Ok && res->Ok_0 == value,
            Err(e) => res is Err && res->Err_0 == e && value_fault(e),
        },
        *final(decoder) == amf3_value_next(*old(decoder)),
        res is Ok ==> amf3_unread(*final(decoder)).len() < amf3_unread(*old(decoder)).len(),
{
    decoder.decode().map(import_value).map_err(|e| amf3_failure(&e))
}

/// `byteorder::ReadBytesExt::read_u8` on the slice of the decoder: the next
/// byte, which is then read, or nothing where no byte is left.
#[verifier::external_body]
fn amf3_padding(decoder: &mut Decoder<&[u8]>) -> (res: Option<u8>)
    ensures
        res is Some <==> amf3_unread(*old(decoder)).len() > 0,
        res is Some ==> res->0 == amf3_unread(*old(decoder))[0] && amf3_unread(*final(decoder))
            == amf3_unread(*old(decoder)).skip(1),
        *final(decoder) == amf3_padding_next(*old(decoder)),
{
    decoder.inner_mut().read_u8().ok()
}

/// The kind of failure that an `amf::error::DecodeError` is told as.  Over
/// a slice the one failure of reading is that the bytes ran out; a string
/// that is not UTF-8 is told as such; every other refusal of a value, from
/// an unknown marker to a reference that points nowhere, is told as an
/// unexpected type.
#[verifier::external_body]
fn amf3_failure(error: &DecodeError) -> (kind: SolError)
    ensures
        value_fault(kind),
{
    match error {
        DecodeError::Io(_) => SolError::UnexpectedEof,
        DecodeError::String(_) => SolError::Utf8Decode,
        _ => SolError::UnexpectedType,
    }
}

/// An `amf::amf3::Value` as a value of this crate: the arrays and objects
/// here, the rest further on.
#[verifier::external_body]
fn import_value(value: Foreign) -> Amf3Value {
    match value {
        Foreign::Array { assoc_entries, dense_entries } => Amf3Value::Array {
            assoc_entries: assoc_entries.into_iter().map(|p| Pair { key: p.key, value: import_value(p.value) }).collect(),
            dense_entries: import_values(dense_entries),
        },
        Foreign::Object { class_name, sealed_count, entries } => Amf3Value::Object {
            class_name,
            sealed_count,
            entries: entries.into_iter().map(|p| Pair { key: p.key, value: import_value(p.value) }).collect(),
        },
        other => import_nested(other),
    }
}

/// The dates, object vectors and dictionaries of `import_value`.
#[verifier::external_body]
fn import_nested(value: Foreign) -> Amf3Value {
    match value {
        Foreign::Date { unix_time } => Amf3Value::Date { secs: unix_time.as_secs(), nanos: unix_time.subsec_nanos() },
        Foreign::ObjectVector { class_name, is_fixed, entries } => Amf3Value::ObjectVector { class_name, is_fixed, entries: import_values(entries) },
        Foreign::Dictionary { is_weak, entries } => Amf3Value::Dictionary {
            is_weak,
            entries: entries.into_iter().map(|p| (import_value(p.key), import_value(p.value))).collect(),
        },
        other => import_vector(other),
    }
}

/// The vectors of numbers of `import_value`.
#[verifier::external_body]
fn import_vector(value: Foreign) -> Amf3Value {
    match value {
        Foreign::IntVector { is_fixed, entries } => Amf3Value::IntVector { is_fixed, entries },
        Foreign::UintVector { is_fixed, entries } => Amf3Value::UintVector { is_fixed, entries },
        Foreign::DoubleVector { is_fixed, entries } => Amf3Value::DoubleVector { is_fixed, entries: entries.into_iter().map(|d| d.to_bits()).collect() },
        other => import_scalar(other),
    }
}

/// The values of `import_value` that hold no further values.  What comes
/// here is none of the variants that were told apart before, so that the
/// last arm is taken by the undefined value alone.
#[verifier::external_body]
fn import_scalar(value: Foreign) -> Amf3Value {
    match value {
        Foreign::Null => Amf3Value::Null,
        Foreign::Boolean(b) => Amf3Value::Boolean(b),
        Foreign::Integer(n) => Amf3Value::Integer(n),
        Foreign::Double(d) => Amf3Value::Double(d.to_bits()),
        Foreign::String(s) => Amf3Value::String(s),
        Foreign::XmlDocument(s) => Amf3Value::XmlDocument(s),
        Foreign::Xml(s) => Amf3Value::Xml(s),
        Foreign::ByteArray(bytes) => Amf3Value::ByteArray(bytes),
        _ => Amf3Value::Undefined,
    }
}

/// A list of `amf::amf3::Value` as a list of values of this crate.
#[verifier::external_body]
fn import_values(values: Vec<Foreign>) -> Vec<Amf3Value> {
    values.into_iter().map(import_value).collect()
}

/// What is left of a declared length when a record has used `used` bytes
/// of it.  A record that ends past the declared length is a framing error.
pub fn spend(left: u64, used: usize) -> (res: Result<u64, SolError>)
    ensures
        match res {
            Ok(rest) => used <= left && rest == left - used,
            Err(e) => e == SolError::LengthMismatch && used > left,
        },
{
    if used as u64 > left {
        Err(SolError::LengthMismatch)
    } else {
        Ok(left - used as u64)
    }
}

/// Reading one record of an AMF3 body on a decoder as it stands: the key,
/// the value and the decoder behind the padding byte, or the failure of the
/// first of the three readings that fails.
pub open spec fn amf3_parse_record(decoder: Decoder<&[u8]>) -> Result<
    ((Seq<char>, Amf3Value), Decoder<&[u8]>),
    SolError,
> {
    match amf3_key_read(decoder) {
        Err(e) => Err(e),
        Ok(key) => match amf3_value_read(amf3_key_next(decoder)) {
            Err(e) => Err(e),
            Ok(value) => {
                let valued = amf3_value_next(amf3_key_next(decoder));
                if amf3_unread(valued).len() == 0 {
                    Err(SolError::UnexpectedEof)
                } else {
                    Ok(((key, value), amf3_padding_next(valued)))
                }
            },
        },
    }
}

/// Reading records on a decoder as it stands until exactly `left` bytes
/// are used up.  A record takes bytes, and no more than are left of the
/// declared length: one that ends past it is a framing error.
pub open spec fn amf3_parse_records(decoder: Decoder<&[u8]>, left: nat) -> Result<
    Seq<(Seq<char>, Amf3Value)>,
    SolError,
>
    decreases left,
{
    if left == 0 {
        Ok(Seq::empty())
    } else {
        match amf3_parse_record(decoder) {
            Err(e) => Err(e),
            Ok((pair, next)) => {
                let used = amf3_unread(decoder).len() - amf3_unread(next).len();
                if 0 < used <= left {
                    match amf3_parse_records(next, (left - used) as nat) {
                        Err(e) => Err(e),
                        Ok(rest) => Ok(seq![pair] + rest),
                    }
                } else {
                    Err(SolError::LengthMismatch)
                }
            },
        }
    }
}

/// Whether a list of pairs holds the keys and values of a list of read
/// records, one for one and in their order.
pub open spec fn amf3_pairs_are(
    pairs: Seq<Pair<Amf3Value>>,
    records: Seq<(Seq<char>, Amf3Value)>,
) -> bool {
    &&& pairs.len() == records.len()
    &&& forall|i: int|
        0 <= i < records.len() ==> (#[trigger] pairs[i]).key@ == records[i].0 && pairs[i].value
            == records[i].1
}

/// Reads one record of an AMF3 body: a key, a value and the padding byte.
/// What the decoder makes of the bytes is its own affair; a record that it
/// accepts has taken three bytes at the least.
fn read_record(decoder: &mut Decoder<&[u8]>) -> (res: Result<Pair<Amf3Value>, SolError>)
    ensures
        match amf3_parse_record(*old(decoder)) {
            Ok((pair, next)) => res is Ok && res->Ok_0.key@ == pair.0 && res->Ok_0.value == pair.1
                && *final(decoder) == next && amf3_unread(next).len() + 3 <= amf3_unread(
                *old(decoder),
            ).len(),
            Err(e) => res is Err && res->Err_0 == e && value_fault(e),
        },
{
    let key = amf3_key(decoder)?;
    let value = amf3_value(decoder)?;
    let padding = amf3_padding(decoder);
    close_record(key, value, padding)
}

/// What a record comes to once its key and its value are read: the pair of
/// the two where the padding byte was there, whatever it holds, and the end
/// of the bytes where it was not.
pub fn close_record(key: String, value: Amf3Value, padding: Option<u8>) -> (res: Result<
    Pair<Amf3Value>,
    SolError,
>)
    ensures
        match padding {
            Some(_) => res is Ok && res->Ok_0.key == key && res->Ok_0.value == value,
            None => res is Err && res->Err_0 == SolError::UnexpectedEof,
        },
{
    match padding {
        Some(_) => Ok(Pair { key, value }),
        None => Err(SolError::UnexpectedEof),
    }
}

/// Reads the body of an AMF3 document from the front of `body`: records,
/// each a key, a value and one padding byte, until exactly `len` bytes are
/// used up.
///
/// The keys and values are what the decoder of the `amf` crate reads, in
/// the order of the bytes; the decoder keeps its tables of strings and
/// objects from one record to the next.  The first failure ends the
/// reading: of the decoder, of a missing padding byte, or of a record that
/// ends past the declared length.
pub fn read_amf3(body: &[u8], len: u64) -> (res: Result<Vec<Pair<Amf3Value>>, SolError>)
    ensures
        match amf3_parse_records(amf3_start(body@), len as nat) {
            Ok(records) => res is Ok && amf3_pairs_are(res->Ok_0@, records) && len <= body@.len(),
            Err(e) => res is Err && res->Err_0 == e && body_fault(e),
        },
{
    let mut decoder = amf3_decoder(body);
    let mut pairs: Vec<Pair<Amf3Value>> = Vec::new();
    let mut left: u64 = len;
    let ghost mut read: Seq<(Seq<char>, Amf3Value)> = Seq::empty();
    assert(read + Seq::empty() =~= read);
    loop
        invariant
            left <= len,
            amf3_unread(decoder).len() + (len - left) == body@.len(),
            amf3_pairs_are(pairs@, read),
            match amf3_parse_records(decoder, left as nat) {
                Ok(rest) => amf3_parse_records(amf3_start(body@), len as nat) == Ok::<_, SolError>(
                    read + rest,
                ),
                Err(e) => amf3_parse_records(amf3_start(body@), len as nat) == Err::<
                    Seq<(Seq<char>, Amf3Value)>,
                    _,
                >(e),
            },
        decreases left,
    {
        if left == 0 {
            assert(read + Seq::empty() =~= read);
            return Ok(pairs);
        }
        let before: usize = amf3_left(&mut decoder);
        let pair = read_record(&mut decoder)?;
        let after: usize = amf3_left(&mut decoder);
        left = spend(left, before - after)?;
        proof {
            let record = (pair.key@, pair.value);
            assert forall|rest: Seq<(Seq<char>, Amf3Value)>| #[trigger]
                (read.push(record) + rest) == read + (seq![record] + rest) by {
                assert(read.push(record) + rest =~= read + (seq![record] + rest));
            }
            read = read.push(record);
        }
        pairs.push(pair);
    }
}

/// The bound below which the encoder takes a length or a count: two to
/// the power 28.
pub const AMF3_LIMIT: usize = 0x1000_0000;

/// The bound below which the encoder takes a count of sealed members: two
/// to the power 25.
pub const AMF3_SEALED_LIMIT: usize = 0x200_0000;

/// Whether a date is one that the encoder takes: its nanoseconds are less
/// than a second, and its milliseconds since the epoch fit 64 bits.
pub open spec fn amf3_date_fits(secs: u64, nanos: u32) -> bool {
    nanos < 1_000_000_000 && secs * 1000 + nanos / 1_000_000 <= u64::MAX
}

/// Whether a string is short enough for the encoder.
pub open spec fn amf3_text_fits(text: Seq<char>) -> bool {
    encode_utf8(text).len() < AMF3_LIMIT
}

/// Whether a class name, where there is one, is short enough for the
/// encoder.
pub open spec fn amf3_name_fits(name: Option<String>) -> bool {
    name matches Some(text) ==> amf3_text_fits(text@)
}

/// Whether the encoder takes a value: its integers are in the range of 29
/// bits, its strings and lists are shorter than the limit, its dates are
/// in range, and no object claims more sealed members than it has.
pub open spec fn amf3_fits(value: Amf3Value) -> bool
    decreases value,
{
    match value {
        Amf3Value::Undefined | Amf3Value::Null | Amf3Value::Boolean(_) | Amf3Value::Double(_) => true,
        Amf3Value::Integer(n) => -0x1000_0000 <= n < 0x1000_0000,
        Amf3Value::String(text) => amf3_text_fits(text@),
        Amf3Value::XmlDocument(text) => amf3_text_fits(text@),
        Amf3Value::Xml(text) => amf3_text_fits(text@),
        Amf3Value::Date { secs, nanos } => amf3_date_fits(secs, nanos),
        Amf3Value::Array { assoc_entries, dense_entries } => dense_entries.len() < AMF3_LIMIT
            && amf3_pairs_fit(assoc_entries) && amf3_values_fit(dense_entries),
        Amf3Value::Object { class_name, sealed_count, entries } => sealed_count <= entries.len()
            && sealed_count < AMF3_SEALED_LIMIT && amf3_name_fits(class_name) && amf3_pairs_fit(
            entries,
        ),
        Amf3Value::ByteArray(bytes) => bytes.len() < AMF3_LIMIT,
        Amf3Value::IntVector { is_fixed, entries } => entries.len() < AMF3_LIMIT,
        Amf3Value::UintVector { is_fixed, entries } => entries.len() < AMF3_LIMIT,
        Amf3Value::DoubleVector { is_fixed, entries } => entries.len() < AMF3_LIMIT,
        Amf3Value::ObjectVector { class_name, is_fixed, entries } => entries.len() < AMF3_LIMIT
            && amf3_name_fits(class_name) && amf3_values_fit(entries),
        Amf3Value::Dictionary { is_weak, entries } => entries.len() < AMF3_LIMIT
            && amf3_dictionary_fits(entries),
    }
}

/// Whether the encoder takes every value of a list.
pub open spec fn amf3_values_fit(values: Vec<Amf3Value>) -> bool
    decreases values,
{
    forall|i: int| 0 <= i < values.len() ==> amf3_fits(#[trigger] values[i])
}

/// Whether the encoder takes every key and every value of a list of pairs.
pub open spec fn amf3_pairs_fit(pairs: Vec<Pair<Amf3Value>>) -> bool
    decreases pairs,
{
    forall|i: int|
        0 <= i < pairs.len() ==> amf3_text_fits((#[trigger] pairs[i]).key@) && amf3_fits(
            pairs[i].value,
        )
}

/// Whether the encoder takes every key and every value of a dictionary.
pub open spec fn amf3_dictionary_fits(entries: Vec<(Amf3Value, Amf3Value)>) -> bool
    decreases entries,
{
    forall|i: int|
        0 <= i < entries.len() ==> amf3_fits((#[trigger] entries[i]).0) && amf3_fits(entries[i].1)
}

/// Whether a string is short enough for the encoder.
pub fn amf3_text_ok(text: &str) -> (ok: bool)
    ensures
        ok == amf3_text_fits(text@),
{
    text.as_bytes().len() < AMF3_LIMIT
}

/// Whether a class name, where there is one, is short enough for the
/// encoder.
pub fn amf3_name_ok(name: &Option<String>) -> (ok: bool)
    ensures
        ok == amf3_name_fits(*name),
{
    match name {
        Some(text) => amf3_text_ok(text.as_str()),
        None => true,
    }
}

/// Whether a date is one that the encoder takes.
pub fn amf3_date_ok(secs: u64, nanos: u32) -> (ok: bool)
    ensures
        ok == amf3_date_fits(secs, nanos),
{
    let millis: u128 = secs as u128 * 1000 + (nanos / 1_000_000) as u128;
    nanos < 1_000_000_000 && millis <= u64::MAX as u128
}

/// Whether the encoder takes a value.
pub fn amf3_ok(value: &Amf3Value) -> (ok: bool)
    ensures
        ok == amf3_fits(*value),
    decreases value,
{
    match value {
        Amf3Value::Undefined | Amf3Value::Null | Amf3Value::Boolean(_) | Amf3Value::Double(_) => true,
        Amf3Value::Integer(n) => -0x1000_0000 <= *n && *n < 0x1000_0000,
        Amf3Value::String(text) => amf3_text_ok(text.as_str()),
        Amf3Value::XmlDocument(text) => amf3_text_ok(text.as_str()),
        Amf3Value::Xml(text) => amf3_text_ok(text.as_str()),
        Amf3Value::Date { secs, nanos } => amf3_date_ok(*secs, *nanos),
        Amf3Value::Array { assoc_entries, dense_entries } => dense_entries.len() < AMF3_LIMIT
            && amf3_pairs_ok(assoc_entries) && amf3_values_ok(dense_entries),
        Amf3Value::Object { class_name, sealed_count, entries } => *sealed_count <= entries.len()
            && *sealed_count < AMF3_SEALED_LIMIT && amf3_name_ok(class_name) && amf3_pairs_ok(
            entries,
        ),
        Amf3Value::ByteArray(bytes) => bytes.len() < AMF3_LIMIT,
        Amf3Value::IntVector { is_fixed: _, entries } => entries.len() < AMF3_LIMIT,
        Amf3Value::UintVector { is_fixed: _, entries } => entries.len() < AMF3_LIMIT,
        Amf3Value::DoubleVector { is_fixed: _, entries } => entries.len() < AMF3_LIMIT,
        Amf3Value::ObjectVector { class_name, is_fixed: _, entries } => entries.len() < AMF3_LIMIT
            && amf3_name_ok(class_name) && amf3_values_ok(entries),
        Amf3Value::Dictionary { is_weak: _, entries } => entries.len() < AMF3_LIMIT
            && amf3_dictionary_ok(entries),
    }
}

/// Whether the encoder takes every value of a list.
pub fn amf3_values_ok(values: &Vec<Amf3Value>) -> (ok: bool)
    ensures
        ok == amf3_values_fit(*values),
    decreases values,
{
    let mut i: usize = 0;
    while i < values.len()
        invariant
            i <= values.len(),
            forall|j: int| 0 <= j < i ==> amf3_fits(#[trigger] values[j]),
        decreases values.len() - i,
    {
        if !amf3_ok(&values[i]) {
            return false;
        }
        i = i + 1;
    }
    true
}

/// Whether the encoder takes every key and every value of a list of pairs.
pub fn amf3_pairs_ok(pairs: &Vec<Pair<Amf3Value>>) -> (ok: bool)
    ensures
        ok == amf3_pairs_fit(*pairs),
    decreases pairs,
{
    let mut i: usize = 0;
    while i < pairs.len()
        invariant
            i <= pairs.len(),
            forall|j: int|
                0 <= j < i ==> amf3_text_fits((#[trigger] pairs[j]).key@) && amf3_fits(
                    pairs[j].value,
                ),
        decreases pairs.len() - i,
    {
        if !amf3_text_ok(pairs[i].key.as_str()) || !amf3_ok(&pairs[i].value) {
            return false;
        }
        i = i + 1;
    }
    true
}

/// Whether the encoder takes every key and every value of a dictionary.
pub fn amf3_dictionary_ok(entries: &Vec<(Amf3Value, Amf3Value)>) -> (ok: bool)
    ensures
        ok == amf3_dictionary_fits(*entries),
    decreases entries,
{
    let mut i: usize = 0;
    while i < entries.len()
        invariant
            i <= entries.len(),
            forall|j: int|
                0 <= j < i ==> amf3_fits((#[trigger] entries[j]).0) && amf3_fits(entries[j].1),
        decreases entries.len() - i,
    {
        if !amf3_ok(&entries[i].0) || !amf3_ok(&entries[i].1) {
            return false;
        }
        i = i + 1;
    }
    true
}

/// A value of this crate as an `amf::amf3::Value`: the arrays and objects
/// here, the rest further on.  A date that the requirement leaves out may
/// make `Duration::new` panic, here or in what this hands on to.
#[verifier::external_body]
fn export_value(value: &Amf3Value) -> Foreign
    requires
        amf3_fits(*value),
{
    match value {
        Amf3Value::Array { assoc_entries, dense_entries } => Foreign::Array {
            assoc_entries: assoc_entries.iter().map(|p| amf::Pair { key: p.key.clone(), value: export_value(&p.value) }).collect(),
            dense_entries: export_values(dense_entries),
        },
        Amf3Value::Object { class_name, sealed_count, entries } => Foreign::Object {
            class_name: class_name.clone(),
            sealed_count: *sealed_count,
            entries: entries.iter().map(|p| amf::Pair { key: p.key.clone(), value: export_value(&p.value) }).collect(),
        },
        other => export_nested(other),
    }
}

/// The dates, object vectors and dictionaries of `export_value`.  A date
/// is made by `core::time::Duration::new`, which panics where the
/// nanoseconds carry into seconds that cannot take them; the requirement
/// keeps the nanoseconds below a second.
#[verifier::external_body]
fn export_nested(value: &Amf3Value) -> Foreign
    requires
        amf3_fits(*value),
{
    match value {
        Amf3Value::Date { secs, nanos } => Foreign::Date { unix_time: Duration::new(*secs, *nanos) },
        Amf3Value::ObjectVector { class_name, is_fixed, entries } => Foreign::ObjectVector { class_name: class_name.clone(), is_fixed: *is_fixed, entries: export_values(entries) },
        Amf3Value::Dictionary { is_weak, entries } => Foreign::Dictionary {
            is_weak: *is_weak,
            entries: entries.iter().map(|p| amf::Pair { key: export_value(&p.0), value: export_value(&p.1) }).collect(),
        },
        other => export_vector(other),
    }
}

/// The vectors of numbers of `export_value`.  A double is made of its bits
/// by `byteorder::BigEndian::read_f64`.
#[verifier::external_body]
fn export_vector(value: &Amf3Value) -> Foreign {
    match value {
        Amf3Value::IntVector { is_fixed, entries } => Foreign::IntVector { is_fixed: *is_fixed, entries: entries.clone() },
        Amf3Value::UintVector { is_fixed, entries } => Foreign::UintVector { is_fixed: *is_fixed, entries: entries.clone() },
        Amf3Value::DoubleVector { is_fixed, entries } => Foreign::DoubleVector { is_fixed: *is_fixed, entries: entries.iter().map(|b| BigEndian::read_f64(&b.to_be_bytes())).collect() },
        other => export_scalar(other),
    }
}

/// The values of `export_value` that hold no further values.  What comes
/// here is none of the variants that were told apart before, so that the
/// last arm is taken by the undefined value alone.
#[verifier::external_body]
fn export_scalar(value: &Amf3Value) -> Foreign {
    match value {
        Amf3Value::Null => Foreign::Null,
        Amf3Value::Boolean(b) => Foreign::Boolean(*b),
        Amf3Value::Integer(n) => Foreign::Integer(*n),
        Amf3Value::Double(bits) => Foreign::Double(BigEndian::read_f64(&bits.to_be_bytes())),
        Amf3Value::String(s) => Foreign::String(s.clone()),
        Amf3Value::XmlDocument(s) => Foreign::XmlDocument(s.clone()),
        Amf3Value::Xml(s) => Foreign::Xml(s.clone()),
        Amf3Value::ByteArray(bytes) => Foreign::ByteArray(bytes.clone()),
        _ => Foreign::Undefined,
    }
}

/// A list of values of this crate as a list of `amf::amf3::Value`, under
/// the requirement of `export_value` for each.
#[verifier::external_body]
fn export_values(values: &Vec<Amf3Value>) -> Vec<Foreign>
    requires
        amf3_values_fit(*values),
{
    values.iter().map(export_value).collect()
}

/// The bytes that the encoder of the `amf` crate writes for a key.
pub uninterp spec fn amf3_key_bytes(key: Seq<char>) -> Seq<u8>;

/// The bytes that the encoder of the `amf` crate writes for a value.
pub uninterp spec fn amf3_value_bytes(value: Amf3Value) -> Seq<u8>;

/// `amf::amf3::Encoder::encode_utf8`, into an empty buffer: the bytes of a
/// key.  The encoder keeps no state, so that they depend on the key alone;
/// it panics on a key of two to the power 28 bytes or more.
#[verifier::external_body]
fn amf3_encode_key(key: &str) -> (bytes: Vec<u8>)
    requires
        amf3_text_fits(key@),
    ensures
        bytes@ == amf3_key_bytes(key@),
{
    let mut encoder = Encoder::new(Vec::new());
    let _ = encoder.encode_utf8(key);
    encoder.into_inner()
}

/// `amf::amf3::Encoder::encode`, into an empty buffer: the bytes of a
/// value.  The encoder keeps no state, so that they depend on the value
/// alone.  Of the values that `amf3_fits` leaves out it panics on a length
/// or a count of two to the power 28 or more, on an object that claims
/// more sealed members than it has or two to the power 25 of them, and on
/// a date whose milliseconds do not fit 64 bits; for an integer outside
/// the 29 bits of the format it either panics or writes bytes that read
/// back as another number.
#[verifier::external_body]
fn amf3_encode_value(value: &Amf3Value) -> (bytes: Vec<u8>)
    requires
        amf3_fits(*value),
    ensures
        bytes@ == amf3_value_bytes(*value),
{
    let mut encoder = Encoder::new(Vec::new());
    let _ = encoder.encode(&export_value(value));
    encoder.into_inner()
}

/// One record of an AMF3 body: the key, the value, and a padding byte of
/// zero.
pub open spec fn amf3_record_bytes(pair: Pair<Amf3Value>) -> Seq<u8> {
    amf3_key_bytes(pair.key@) + amf3_value_bytes(pair.value) + seq![0u8]
}

/// The body of an AMF3 document: its records, one behind the other.
pub open spec fn amf3_records_bytes(pairs: Seq<Pair<Amf3Value>>) -> Seq<u8>
    decreases pairs.len(),
{
    if pairs.len() == 0 {
        Seq::empty()
    } else {
        amf3_record_bytes(pairs.first()) + amf3_records_bytes(pairs.drop_first())
    }
}

/// Whether every key of a list of pairs is short enough for the encoder.
pub open spec fn amf3_keys_fit(pairs: Seq<Pair<Amf3Value>>) -> bool {
    forall|i: int| 0 <= i < pairs.len() ==> amf3_text_fits((#[trigger] pairs[i]).key@)
}

/// The records of two lists, one behind the other, are the records of the
/// joined list.
pub proof fn lemma_amf3_records_join(front: Seq<Pair<Amf3Value>>, back: Seq<Pair<Amf3Value>>)
    ensures
        amf3_records_bytes(front + back) == amf3_records_bytes(front) + amf3_records_bytes(back),
    decreases front.len(),
{
    if front.len() == 0 {
        assert(front + back =~= back);
        assert(amf3_records_bytes(front) + amf3_records_bytes(back) =~= amf3_records_bytes(back));
    } else {
        lemma_amf3_records_join(front.drop_first(), back);
        assert((front + back).drop_first() =~= front.drop_first() + back);
        assert((front + back).first() == front.first());
        assert(amf3_records_bytes(front + back) =~= amf3_records_bytes(front)
            + amf3_records_bytes(back));
    }
}

/// The records of the first `i + 1` pairs are those of the first `i` and
/// the record of the next; and no part of a body is longer than the whole.
pub proof fn lemma_amf3_records_step(pairs: Seq<Pair<Amf3Value>>, i: int)
    requires
        0 <= i < pairs.len(),
    ensures
        amf3_records_bytes(pairs.take(i + 1)) == amf3_records_bytes(pairs.take(i))
            + amf3_record_bytes(pairs[i]),
        amf3_records_bytes(pairs.take(i + 1)).len() <= amf3_records_bytes(pairs).len(),
{
    let one = seq![pairs[i]];
    assert(one.drop_first() =~= Seq::empty());
    assert(amf3_records_bytes(Seq::empty()) =~= Seq::empty());
    assert(amf3_records_bytes(one) =~= amf3_record_bytes(pairs[i]));
    lemma_amf3_records_join(pairs.take(i), one);
    assert(pairs.take(i) + one =~= pairs.take(i + 1));
    lemma_amf3_records_join(pairs.take(i + 1), pairs.skip(i + 1));
    assert(pairs.take(i + 1) + pairs.skip(i + 1) =~= pairs);
}

/// Encodes one record of an AMF3 body.
pub fn amf3_encode_record(pair: &Pair<Amf3Value>) -> (bytes: Vec<u8>)
    requires
        amf3_text_fits(pair.key@),
        amf3_fits(pair.value),
    ensures
        bytes@ == amf3_record_bytes(*pair),
{
    let mut bytes = amf3_encode_key(pair.key.as_str());
    let mut value = amf3_encode_value(&pair.value);
    bytes.append(&mut value);
    bytes.push(0);
    assert(bytes@ =~= amf3_record_bytes(*pair));
    bytes
}

impl AmfWrite for Sol<Amf3> {
    /// The records of the pairs, as the encoder of the `amf` crate writes
    /// their keys and values.  A key that is too long for the encoder
    /// cannot be written, nor a value that the encoder does not take, nor a
    /// body of more bytes than the length field can state.
    open spec fn amf_bytes(&self) -> Result<Seq<u8>, SolError> {
        if !amf3_keys_fit(self.root_object@) {
            Err(SolError::StringTooLong)
        } else if !amf3_pairs_fit(self.root_object) {
            Err(SolError::Unsupported)
        } else if amf3_records_bytes(self.root_object@).len() > MAX_BODY {
            Err(SolError::LengthMismatch)
        } else {
            Ok(amf3_records_bytes(self.root_object@))
        }
    }

    proof fn lemma_amf_bytes_bound(&self) {
    }

    fn amf_len(&self) -> (res: Result<u32, SolError>) {
        let pairs = &self.root_object;
        let mut i: usize = 0;
        while i < pairs.len()
            invariant
                i <= pairs.len(),
                *pairs == self.root_object,
                forall|j: int| 0 <= j < i ==> amf3_text_fits((#[trigger] pairs@[j]).key@),
            decreases pairs.len() - i,
        {
            if !amf3_text_ok(pairs[i].key.as_str()) {
                assert(!amf3_text_fits(self.root_object@[i as int].key@));
                return Err(SolError::StringTooLong);
            }
            i = i + 1;
        }
        assert(amf3_keys_fit(self.root_object@));
        if !amf3_pairs_ok(pairs) {
            return Err(SolError::Unsupported);
        }
        let mut total: u64 = 0;
        let mut i: usize = 0;
        assert(pairs@.take(0) =~= Seq::empty());
        while i < pairs.len()
            invariant
                i <= pairs.len(),
                *pairs == self.root_object,
                amf3_keys_fit(self.root_object@),
                amf3_pairs_fit(*pairs),
                total == amf3_records_bytes(pairs@.take(i as int)).len(),
                total <= MAX_BODY,
            decreases pairs.len() - i,
        {
            let bytes = amf3_encode_record(&pairs[i]);
            proof {
                lemma_amf3_records_step(pairs@, i as int);
            }
            total = match grow(total, bytes.len()) {
                Some(n) => n,
                None => {
                    return Err(SolError::LengthMismatch);
                },
            };
            i = i + 1;
        }
        assert(pairs@.take(i as int) =~= pairs@);
        Ok(total as u32)
    }

    fn write_amf(&self, writer: &mut Writer) -> (n: u64) {
        let pairs = &self.root_object;
        let start: usize = writer.offset();
        let mut i: usize = 0;
        assert(pairs@.take(0) =~= Seq::empty());
        assert(wrote(*old(writer), *writer, amf3_records_bytes(pairs@.take(0)))) by {
            assert(overlay(old(writer).bytes(), start as nat, Seq::empty()) =~= old(
                writer,
            ).bytes());
        }
        while i < pairs.len()
            invariant
                i <= pairs.len(),
                amf3_pairs_fit(*pairs),
                wrote(*old(writer), *writer, amf3_records_bytes(pairs@.take(i as int))),
            decreases pairs.len() - i,
        {
            let ghost before = *writer;
            let bytes = amf3_encode_record(&pairs[i]);
            writer.write_all(bytes.as_slice());
            proof {
                lemma_amf3_records_step(pairs@, i as int);
                lemma_wrote_then(
                    *old(writer),
                    before,
                    *writer,
                    amf3_records_bytes(pairs@.take(i as int)),
                    amf3_record_bytes(pairs@[i as int]),
                );
            }
            i = i + 1;
        }
        assert(pairs@.take(i as int) =~= pairs@);
        (writer.offset() - start) as u64
    }
}

} // verus!
