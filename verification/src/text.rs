//! Length-prefixed UTF-8 strings: keys, string values and the root name.

use crate::cursor::{advanced, kept, lemma_wrote_then, wrote, Reader, Writer};
use crate::endian::{be_bytes, be_value, lemma_be_reads_back, lemma_radix_pow_values};
use crate::error::SolError;
use vstd::prelude::*;
use vstd::string::StringSliceAdditionalSpecFns;
use vstd::utf8::{
    decode_utf8, encode_utf8, encode_utf8_decode_utf8, encode_utf8_valid_utf8, valid_utf8,
};

verus! {

/// The longest key or string, in bytes of UTF-8, that a length prefix can
/// state.
pub const MAX_TEXT: usize = 65535;

/// A length-prefixed string on the wire.
#[verifier::opaque]
pub open spec fn text_bytes(text: Seq<char>) -> Seq<u8> {
    be_bytes(encode_utf8(text).len(), 2) + encode_utf8(text)
}

/// Whether a string is short enough for its length prefix.
pub open spec fn text_fits(text: Seq<char>) -> bool {
    encode_utf8(text).len() <= MAX_TEXT
}

/// Reading a length-prefixed string from the front of `input`: the string
/// and the number of bytes it took.
#[verifier::opaque]
pub open spec fn parse_text(input: Seq<u8>) -> Result<(Seq<char>, nat), SolError> {
    if input.len() < 2 {
        Err(SolError::UnexpectedEof)
    } else {
        let len = be_value(input.take(2));
        if input.len() < 2 + len {
            Err(SolError::UnexpectedEof)
        } else if !valid_utf8(input.subrange(2, 2 + len as int)) {
            Err(SolError::Utf8Decode)
        } else {
            Ok((decode_utf8(input.subrange(2, 2 + len as int)), 2 + len))
        }
    }
}

/// A string that fits its length prefix reads back as itself, whatever
/// follows it.
pub proof fn lemma_text_reads_back(text: Seq<char>, tail: Seq<u8>)
    requires
        text_fits(text),
    ensures
        text_bytes(text).len() == 2 + encode_utf8(text).len(),
        parse_text(text_bytes(text) + tail) == Ok::<_, SolError>(
            (text, text_bytes(text).len()),
        ),
{
    reveal(text_bytes);
    reveal(parse_text);
    let raw = encode_utf8(text);
    let input = text_bytes(text) + tail;
    lemma_radix_pow_values();
    lemma_be_reads_back(raw.len(), 2, raw + tail);
    assert(input =~= be_bytes(raw.len(), 2) + (raw + tail));
    assert(input.subrange(2, 2 + raw.len() as int) =~= raw);
    encode_utf8_valid_utf8(text);
    encode_utf8_decode_utf8(text);
}

/// A string on the wire is two bytes longer than its UTF-8.
pub proof fn lemma_text_bytes_len(text: Seq<char>)
    ensures
        text_bytes(text).len() == 2 + encode_utf8(text).len(),
{
    reveal(text_bytes);
    crate::endian::lemma_be_bytes_len(encode_utf8(text).len(), 2);
}

/// `std::str::from_utf8`: the string over these very bytes where they are
/// valid UTF-8, and nothing where they are not.
#[verifier::external_body]
fn utf8_str(bytes: &[u8]) -> (text: Option<&str>)
    ensures
        text is Some <==> valid_utf8(bytes@),
        text is Some ==> text->0.spec_bytes() == bytes@,
{
    std::str::from_utf8(bytes).ok()
}

/// Whether a string is short enough to be written.
pub fn text_ok(text: &str) -> (ok: bool)
    ensures
        ok == text_fits(text@),
{
    text.as_bytes().len() <= MAX_TEXT
}

/// Reads a 16-bit length and then that many bytes as UTF-8.
pub fn read_text(reader: &mut Reader) -> (res: Result<String, SolError>)
    ensures
        kept(*old(reader), *final(reader)),
        match parse_text(old(reader).unread()) {
            Ok((text, n)) => res is Ok && res->Ok_0@ == text && advanced(
                *old(reader),
                *final(reader),
                n,
            ),
            Err(e) => res is Err && res->Err_0 == e,
        },
{
    reveal(parse_text);
    let ghost input = reader.unread();
    let len: u16 = reader.read_u16()?;
    let raw = reader.read_bytes(len as usize)?;
    assert(raw@ =~= input.subrange(2, 2 + len as int));
    match utf8_str(raw) {
        Some(text) => {
            proof {
                encode_utf8_decode_utf8(text@);
            }
            Ok(text.to_owned())
        },
        None => Err(SolError::Utf8Decode),
    }
}

/// Writes the length of a string in bytes as a 16-bit number, and then the
/// bytes.
pub fn write_text(writer: &mut Writer, text: &str)
    requires
        text_fits(text@),
    ensures
        wrote(*old(writer), *final(writer), text_bytes(text@)),
{
    reveal(text_bytes);
    let bytes = text.as_bytes();
    let len: u16 = bytes.len() as u16;
    writer.write_u16(len);
    let ghost mid = *writer;
    writer.write_all(bytes);
    proof {
        lemma_wrote_then(*old(writer), mid, *writer, be_bytes(len as nat, 2), bytes@);
    }
}

} // verus!
