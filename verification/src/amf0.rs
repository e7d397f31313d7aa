//! The AMF0 value encoding.

use crate::cursor::{advanced, kept, lemma_wrote_then, overlay, wrote, Reader, Writer};
use crate::document::{lemma_object_view, pairs_view, Amf0Model, Amf0Value, Pair};
use crate::endian::{be_bytes, be_value, lemma_be_reads_back, lemma_radix_pow_values};
use crate::text::{
    lemma_text_bytes_len, lemma_text_reads_back, parse_text, read_text, text_bytes, text_fits,
    text_ok, write_text,
};
use crate::error::{body_fault, value_fault, SolError};
use vstd::prelude::*;
use vstd::utf8::encode_utf8;

verus! {

/// The type tag that ends the members of a nested object.
pub const OBJECT_END: u8 = 9;

/// The type tag of a value.
pub open spec fn tag_of(value: Amf0Model) -> u8 {
    match value {
        Amf0Model::Num(_) => 0,
        Amf0Model::Bool(_) => 1,
        Amf0Model::String(_) => 2,
        Amf0Model::Object(_) => 3,
    }
}

/// One member of a nested object: key, type tag, payload.
pub open spec fn member_bytes(member: (Seq<char>, Amf0Model)) -> Seq<u8> {
    text_bytes(member.0).push(tag_of(member.1)) + payload_bytes(member.1)
}

/// What ends the members of a nested object: an empty key, and the end tag
/// where a value's type tag would stand.
pub open spec fn sentinel_bytes() -> Seq<u8> {
    text_bytes(Seq::empty()).push(OBJECT_END)
}

/// What follows the type tag of a value.
pub open spec fn payload_bytes(value: Amf0Model) -> Seq<u8>
    decreases value,
{
    match value {
        Amf0Model::Num(bits) => be_bytes(bits as nat, 8),
        Amf0Model::Bool(b) => seq![if b { 1u8 } else { 0u8 }],
        Amf0Model::String(text) => text_bytes(text),
        Amf0Model::Object(members) => members_bytes(members) + sentinel_bytes(),
    }
}

/// The members of a nested object, one behind the other, without the
/// sentinel that ends them.
pub open spec fn members_bytes(members: Seq<(Seq<char>, Amf0Model)>) -> Seq<u8>
    decreases members,
{
    if members.len() == 0 {
        Seq::empty()
    } else {
        text_bytes(members.first().0).push(tag_of(members.first().1)) + payload_bytes(
            members.first().1,
        ) + members_bytes(members.drop_first())
    }
}

/// One pair of a document's list: a member, and the padding byte that the
/// container puts behind each of its records.
pub open spec fn record_bytes(pair: (Seq<char>, Amf0Model)) -> Seq<u8> {
    member_bytes(pair).push(0u8)
}

/// The body of a document: its records, one behind the other.
pub open spec fn records_bytes(pairs: Seq<(Seq<char>, Amf0Model)>) -> Seq<u8>
    decreases pairs.len(),
{
    if pairs.len() == 0 {
        Seq::empty()
    } else {
        record_bytes(pairs.first()) + records_bytes(pairs.drop_first())
    }
}

/// Whether every string in a value is short enough for its length prefix.
pub open spec fn value_fits(value: Amf0Model) -> bool
    decreases value,
{
    match value {
        Amf0Model::String(text) => text_fits(text),
        Amf0Model::Object(members) => pairs_fit(members),
        _ => true,
    }
}

/// Whether every key and every string in a list of pairs is short enough
/// for its length prefix.
pub open spec fn pairs_fit(pairs: Seq<(Seq<char>, Amf0Model)>) -> bool
    decreases pairs,
{
    forall|i: int|
        0 <= i < pairs.len() ==> text_fits((#[trigger] pairs[i]).0) && value_fits(pairs[i].1)
}

/// Reading what follows the type tag `tag` from the front of `input`: the
/// value and the number of bytes it took.
pub open spec fn parse_payload(tag: u8, input: Seq<u8>) -> Result<(Amf0Model, nat), SolError>
    decreases input.len(), 1nat,
{
    if tag == 0 {
        if input.len() < 8 {
            Err(SolError::UnexpectedEof)
        } else {
            Ok((Amf0Model::Num(be_value(input.take(8)) as u64), 8))
        }
    } else if tag == 1 {
        if input.len() < 1 {
            Err(SolError::UnexpectedEof)
        } else {
            Ok((Amf0Model::Bool(input[0] != 0), 1))
        }
    } else if tag == 2 {
        match parse_text(input) {
            Ok((text, n)) => Ok((Amf0Model::String(text), n)),
            Err(e) => Err(e),
        }
    } else if tag == 3 {
        match parse_members(input) {
            Ok((members, n)) => Ok((Amf0Model::Object(members), n)),
            Err(e) => Err(e),
        }
    } else {
        Err(SolError::UnexpectedType)
    }
}

/// Reading a key and the type tag behind it from the front of `input`:
/// both, and the number of bytes they took.
pub open spec fn parse_key_and_tag(input: Seq<u8>) -> Result<((Seq<char>, u8), nat), SolError> {
    match parse_text(input) {
        Err(e) => Err(e),
        Ok((key, n)) => if input.len() < n + 1 {
            Err(SolError::UnexpectedEof)
        } else {
            Ok(((key, input[n as int]), n + 1))
        },
    }
}

/// Reading the members of a nested object from the front of `input`, up to
/// and including the sentinel: the members and the number of bytes that
/// they and the sentinel took.  The sentinel is a key, which is dropped,
/// followed by the end tag in place of a type tag.
pub open spec fn parse_members(input: Seq<u8>) -> Result<
    (Seq<(Seq<char>, Amf0Model)>, nat),
    SolError,
>
    decreases input.len(), 0nat,
{
    match parse_key_and_tag(input) {
        Err(e) => Err(e),
        Ok(((key, tag), n)) => if tag == OBJECT_END {
            Ok((Seq::empty(), n))
        } else {
            match parse_payload(tag, input.skip(n as int)) {
                Err(e) => Err(e),
                Ok((value, m)) =>
                // Another key and a tag must follow: three bytes at the least.
                if input.len() < n + m + 3 {
                    Err(SolError::UnexpectedEof)
                } else {
                    match parse_members(input.skip(n + m as int)) {
                        Err(e) => Err(e),
                        Ok((rest, k)) => Ok((seq![(key, value)] + rest, n + m + k)),
                    }
                },
            }
        },
    }
}

/// Reading one record of a document's body from the front of `input`: the
/// pair and the number of bytes that it and its padding byte took.  The
/// padding byte may hold anything.
pub open spec fn parse_record(input: Seq<u8>) -> Result<((Seq<char>, Amf0Model), nat), SolError> {
    match parse_key_and_tag(input) {
        Err(e) => Err(e),
        Ok(((key, tag), n)) => match parse_payload(tag, input.skip(n as int)) {
            Err(e) => Err(e),
            Ok((value, m)) => if input.len() < n + m + 1 {
                Err(SolError::UnexpectedEof)
            } else {
                Ok(((key, value), n + m + 1))
            },
        },
    }
}

/// Reading records from the front of `input` until exactly `budget` bytes
/// are used up.  A record that ends past the budget is a framing error.
pub open spec fn parse_records(input: Seq<u8>, budget: nat) -> Result<
    Seq<(Seq<char>, Amf0Model)>,
    SolError,
>
    decreases budget,
{
    if budget == 0 {
        Ok(Seq::empty())
    } else {
        match parse_record(input) {
            Err(e) => Err(e),
            Ok((pair, n)) => if n > budget {
                Err(SolError::LengthMismatch)
            } else {
                match parse_records(input.skip(n as int), (budget - n) as nat) {
                    Err(e) => Err(e),
                    Ok(rest) => Ok(seq![pair] + rest),
                }
            },
        }
    }
}

/// The sentinel is three bytes, and reads as an empty key before the end
/// tag.
pub proof fn lemma_sentinel_reads_back(tail: Seq<u8>)
    ensures
        sentinel_bytes().len() == 3,
        sentinel_bytes()[2] == OBJECT_END,
        parse_key_and_tag(sentinel_bytes() + tail) == Ok::<_, SolError>(
            ((Seq::<char>::empty(), OBJECT_END), 3nat),
        ),
{
    assert(encode_utf8(Seq::<char>::empty()).len() == 0);
    lemma_text_reads_back(Seq::empty(), seq![OBJECT_END] + tail);
    assert(sentinel_bytes() + tail =~= text_bytes(Seq::empty()) + (seq![OBJECT_END] + tail));
}

/// A value whose strings fit reads back as itself under its own tag,
/// whatever follows it.
pub proof fn lemma_payload_reads_back(value: Amf0Model, tail: Seq<u8>)
    requires
        value_fits(value),
    ensures
        parse_payload(tag_of(value), payload_bytes(value) + tail) == Ok::<_, SolError>(
            (value, payload_bytes(value).len()),
        ),
    decreases value, 0nat,
{
    let input = payload_bytes(value) + tail;
    match value {
        Amf0Model::Num(bits) => {
            lemma_radix_pow_values();
            lemma_be_reads_back(bits as nat, 8, tail);
        },
        Amf0Model::Bool(b) => {},
        Amf0Model::String(text) => {
            lemma_text_reads_back(text, tail);
        },
        Amf0Model::Object(members) => {
            lemma_members_read_back(members, tail);
            lemma_sentinel_reads_back(tail);
            assert(input =~= members_bytes(members) + sentinel_bytes() + tail);
        },
    }
}

/// A key that fits reads back with the tag behind it, whatever follows.
pub proof fn lemma_key_and_tag_read_back(key: Seq<char>, tag: u8, tail: Seq<u8>)
    requires
        text_fits(key),
    ensures
        parse_key_and_tag(text_bytes(key).push(tag) + tail) == Ok::<_, SolError>(
            ((key, tag), text_bytes(key).len() + 1),
        ),
{
    lemma_text_reads_back(key, seq![tag] + tail);
    assert(text_bytes(key).push(tag) + tail =~= text_bytes(key) + (seq![tag] + tail));
}

/// The part of a list that is left without its first pair fits where the
/// list does, and so does the first pair.
pub proof fn lemma_pairs_fit_parts(pairs: Seq<(Seq<char>, Amf0Model)>)
    requires
        pairs_fit(pairs),
        pairs.len() > 0,
    ensures
        text_fits(pairs.first().0),
        value_fits(pairs.first().1),
        pairs_fit(pairs.drop_first()),
{
    let rest = pairs.drop_first();
    assert(pairs[0] == pairs.first());
    assert forall|i: int| 0 <= i < rest.len() implies text_fits((#[trigger] rest[i]).0)
        && value_fits(rest[i].1) by {
        assert(rest[i] == pairs[i + 1]);
    }
}

/// Members whose strings fit read back as themselves when the sentinel
/// follows them.
pub proof fn lemma_members_read_back(members: Seq<(Seq<char>, Amf0Model)>, tail: Seq<u8>)
    requires
        pairs_fit(members),
    ensures
        parse_members(members_bytes(members) + sentinel_bytes() + tail) == Ok::<_, SolError>(
            (members, members_bytes(members).len() + 3),
        ),
    decreases members, members.len(),
{
    let input = members_bytes(members) + sentinel_bytes() + tail;
    lemma_sentinel_reads_back(tail);
    if members.len() == 0 {
        assert(input =~= sentinel_bytes() + tail);
        assert(members =~= Seq::empty());
    } else {
        let key = members.first().0;
        let value = members.first().1;
        let rest = members.drop_first();
        let after = members_bytes(rest) + sentinel_bytes() + tail;
        let n = text_bytes(key).len() + 1;
        let m = payload_bytes(value).len();
        lemma_pairs_fit_parts(members);
        lemma_key_and_tag_read_back(key, tag_of(value), payload_bytes(value) + after);
        assert(input =~= text_bytes(key).push(tag_of(value)) + (payload_bytes(value) + after));
        assert(input.skip(n as int) =~= payload_bytes(value) + after);
        lemma_payload_reads_back(value, after);
        assert(input.skip(n + m as int) =~= after);
        lemma_members_read_back(rest, tail);
        assert(seq![(key, value)] + rest =~= members);
        assert(members_bytes(members).len() == n + m + members_bytes(rest).len());
    }
}

/// A record whose strings fit reads back as itself, whatever follows it.
pub proof fn lemma_record_reads_back(pair: (Seq<char>, Amf0Model), tail: Seq<u8>)
    requires
        text_fits(pair.0),
        value_fits(pair.1),
    ensures
        record_bytes(pair).len() > 0,
        parse_record(record_bytes(pair) + tail) == Ok::<_, SolError>(
            (pair, record_bytes(pair).len()),
        ),
{
    let input = record_bytes(pair) + tail;
    let n = text_bytes(pair.0).len() + 1;
    let after = seq![0u8] + tail;
    lemma_key_and_tag_read_back(pair.0, tag_of(pair.1), payload_bytes(pair.1) + after);
    assert(input =~= text_bytes(pair.0).push(tag_of(pair.1)) + (payload_bytes(pair.1) + after));
    assert(input.skip(n as int) =~= payload_bytes(pair.1) + after);
    lemma_payload_reads_back(pair.1, after);
}

/// A body whose strings fit reads back as its pairs, in their order, when
/// the budget is the length of the body; what follows the body is not
/// looked at.
pub proof fn lemma_records_read_back(pairs: Seq<(Seq<char>, Amf0Model)>, tail: Seq<u8>)
    requires
        pairs_fit(pairs),
    ensures
        parse_records(records_bytes(pairs) + tail, records_bytes(pairs).len()) == Ok::<
            _,
            SolError,
        >(pairs),
    decreases pairs.len(),
{
    if pairs.len() > 0 {
        let first = pairs.first();
        let rest = pairs.drop_first();
        let input = records_bytes(pairs) + tail;
        let n = record_bytes(first).len();
        lemma_pairs_fit_parts(pairs);
        lemma_record_reads_back(first, records_bytes(rest) + tail);
        assert(input =~= record_bytes(first) + (records_bytes(rest) + tail));
        assert(input.skip(n as int) =~= records_bytes(rest) + tail);
        lemma_records_read_back(rest, tail);
        assert(seq![first] + rest =~= pairs);
        assert(records_bytes(pairs).len() == n + records_bytes(rest).len());
    } else {
        assert(pairs =~= Seq::empty());
    }
}

/// Fewer than three bytes cannot hold a key and a tag.
pub proof fn lemma_members_need_three(input: Seq<u8>)
    requires
        input.len() < 3,
    ensures
        parse_members(input) == Err::<(Seq<(Seq<char>, Amf0Model)>, nat), _>(
            SolError::UnexpectedEof,
        ),
{
    reveal(parse_text);
}

/// Reading a value fails only as the bytes running out, as a string that
/// is not UTF-8, or as an unexpected type tag.
pub proof fn lemma_payload_faults(tag: u8, input: Seq<u8>)
    ensures
        parse_payload(tag, input) matches Err(e) ==> value_fault(e),
    decreases input.len(), 1nat,
{
    reveal(parse_text);
    if tag == 3 {
        lemma_members_faults(input);
    }
}

/// Reading the members of a nested object fails only as reading a value
/// does.
pub proof fn lemma_members_faults(input: Seq<u8>)
    ensures
        parse_members(input) matches Err(e) ==> value_fault(e),
    decreases input.len(), 0nat,
{
    reveal(parse_text);
    if let Ok(((key, tag), n)) = parse_key_and_tag(input) {
        if tag != OBJECT_END {
            lemma_payload_faults(tag, input.skip(n as int));
            if let Ok((value, m)) = parse_payload(tag, input.skip(n as int)) {
                if input.len() >= n + m + 3 {
                    lemma_members_faults(input.skip(n + m as int));
                }
            }
        }
    }
}

/// Reading a body fails only as reading a value does, or as a record that
/// ends past the declared length.
pub proof fn lemma_records_faults(input: Seq<u8>, budget: nat)
    ensures
        parse_records(input, budget) matches Err(e) ==> body_fault(e),
    decreases budget,
{
    reveal(parse_text);
    if budget > 0 {
        if let Ok(((key, tag), n)) = parse_key_and_tag(input) {
            lemma_payload_faults(tag, input.skip(n as int));
        }
        if let Ok((pair, n)) = parse_record(input) {
            if n <= budget {
                lemma_records_faults(input.skip(n as int), (budget - n) as nat);
            }
        }
    }
}

/// Reads a key and the type tag behind it.
pub fn read_key_and_type(reader: &mut Reader) -> (res: Result<(String, u8), SolError>)
    ensures
        kept(*old(reader), *final(reader)),
        match parse_key_and_tag(old(reader).unread()) {
            Ok(((key, tag), n)) => res is Ok && res->Ok_0.0@ == key && res->Ok_0.1 == tag
                && advanced(*old(reader), *final(reader), n),
            Err(e) => res is Err && res->Err_0 == e,
        },
{
    let key = read_text(reader)?;
    let tag: u8 = reader.read_u8()?;
    Ok((key, tag))
}

/// Reads what follows the type tag `tag`: eight bytes of a double, one byte
/// of a boolean, a length-prefixed string, or the members of a nested
/// object up to and including the sentinel.
pub fn read_value(tag: u8, reader: &mut Reader) -> (res: Result<Amf0Value, SolError>)
    ensures
        kept(*old(reader), *final(reader)),
        match parse_payload(tag, old(reader).unread()) {
            Ok((value, n)) => res is Ok && res->Ok_0@ == value && advanced(
                *old(reader),
                *final(reader),
                n,
            ),
            Err(e) => res is Err && res->Err_0 == e,
        },
    decreases old(reader).unread().len(), 1nat,
{
    if tag == 0 {
        let bits: u64 = reader.read_u64()?;
        Ok(Amf0Value::Num(bits))
    } else if tag == 1 {
        let marker: u8 = reader.read_u8()?;
        Ok(Amf0Value::Bool(marker != 0))
    } else if tag == 2 {
        let text = read_text(reader)?;
        Ok(Amf0Value::String(text))
    } else if tag == 3 {
        let members = read_members(reader)?;
        proof {
            lemma_object_view(members);
        }
        Ok(Amf0Value::Object(members))
    } else {
        Err(SolError::UnexpectedType)
    }
}

/// Reads the members of a nested object until the end tag stands where a
/// type tag would, and leaves the reader just behind that tag.
pub fn read_members(reader: &mut Reader) -> (res: Result<Vec<Pair<Amf0Value>>, SolError>)
    ensures
        kept(*old(reader), *final(reader)),
        match parse_members(old(reader).unread()) {
            Ok((members, n)) => res is Ok && pairs_view(res->Ok_0@) == members && advanced(
                *old(reader),
                *final(reader),
                n,
            ),
            Err(e) => res is Err && res->Err_0 == e,
        },
    decreases old(reader).unread().len(), 0nat,
{
    let mut members: Vec<Pair<Amf0Value>> = Vec::new();
    let ghost start = reader.unread();
    assert(pairs_view(members@) + Seq::empty() =~= Seq::<(Seq<char>, Amf0Model)>::empty());
    loop
        invariant
            kept(*old(reader), *reader),
            start == old(reader).unread(),
            match parse_members(reader.unread()) {
                Ok((rest, k)) => parse_members(start) == Ok::<_, SolError>(
                    (
                        pairs_view(members@) + rest,
                        (reader.position() - old(reader).position() + k) as nat,
                    ),
                ),
                Err(e) => parse_members(start) == Err::<(Seq<(Seq<char>, Amf0Model)>, nat), _>(e),
            },
        decreases reader.unread().len(),
    {
        let ghost here = reader.unread();
        let (key, tag) = read_key_and_type(reader)?;
        if tag == OBJECT_END {
            assert(pairs_view(members@) + Seq::empty() =~= pairs_view(members@));
            return Ok(members);
        }
        let ghost inner = reader.unread();
        let ghost n = here.len() - inner.len();
        assert(inner =~= here.skip(n));
        let value = read_value(tag, reader)?;
        let ghost next = reader.unread();
        let ghost m = inner.len() - next.len();
        assert(next =~= here.skip(n + m));
        proof {
            if next.len() < 3 {
                lemma_members_need_three(next);
            }
            let before = pairs_view(members@);
            let pair = (key@, value@);
            assert(pairs_view(members@.push(Pair { key, value })) =~= before.push(pair));
            assert forall|rest: Seq<(Seq<char>, Amf0Model)>| #[trigger]
                (before.push(pair) + rest) == before + (seq![pair] + rest) by {
                assert(before.push(pair) + rest =~= before + (seq![pair] + rest));
            }
        }
        members.push(Pair { key, value });
    }
}

/// Reads the body of a document: records, each a key, a type tag, a value
/// and one padding byte, until exactly `len` bytes are used up.
///
/// A record that ends past the declared length is a framing error; bytes
/// behind the declared length are not looked at.
pub fn read_amf0(reader: &mut Reader, len: u64) -> (res: Result<Vec<Pair<Amf0Value>>, SolError>)
    ensures
        kept(*old(reader), *final(reader)),
        match parse_records(old(reader).unread(), len as nat) {
            Ok(pairs) => res is Ok && pairs_view(res->Ok_0@) == pairs && advanced(
                *old(reader),
                *final(reader),
                len as nat,
            ),
            Err(e) => res is Err && res->Err_0 == e,
        },
{
    let mut pairs: Vec<Pair<Amf0Value>> = Vec::new();
    let mut left: u64 = len;
    let ghost start = reader.unread();
    assert(pairs_view(pairs@) + Seq::empty() =~= Seq::<(Seq<char>, Amf0Model)>::empty());
    loop
        invariant
            kept(*old(reader), *reader),
            start == old(reader).unread(),
            left <= len,
            reader.position() == old(reader).position() + (len - left),
            match parse_records(reader.unread(), left as nat) {
                Ok(rest) => parse_records(start, len as nat) == Ok::<_, SolError>(
                    pairs_view(pairs@) + rest,
                ),
                Err(e) => parse_records(start, len as nat) == Err::<
                    Seq<(Seq<char>, Amf0Model)>,
                    _,
                >(e),
            },
        decreases left,
    {
        let before: usize = reader.offset();
        if left == 0 {
            assert(pairs_view(pairs@) + Seq::empty() =~= pairs_view(pairs@));
            return Ok(pairs);
        }
        let ghost here = reader.unread();
        let (key, tag) = read_key_and_type(reader)?;
        assert(reader.unread() =~= here.skip(reader.position() - before));
        let value = read_value(tag, reader)?;
        let _padding: u8 = reader.read_u8()?;
        let used: usize = reader.offset() - before;
        assert(reader.unread() =~= here.skip(used as int));
        if used as u64 > left {
            return Err(SolError::LengthMismatch);
        }
        left = left - used as u64;
        proof {
            let before = pairs_view(pairs@);
            let pair = (key@, value@);
            assert(pairs_view(pairs@.push(Pair { key, value })) =~= before.push(pair));
            assert forall|rest: Seq<(Seq<char>, Amf0Model)>| #[trigger]
                (before.push(pair) + rest) == before + (seq![pair] + rest) by {
                assert(before.push(pair) + rest =~= before + (seq![pair] + rest));
            }
        }
        pairs.push(Pair { key, value });
    }
}

/// The members of two lists, one behind the other, are the members of the
/// joined list.
pub proof fn lemma_members_bytes_join(
    front: Seq<(Seq<char>, Amf0Model)>,
    back: Seq<(Seq<char>, Amf0Model)>,
)
    ensures
        members_bytes(front + back) == members_bytes(front) + members_bytes(back),
    decreases front.len(),
{
    if front.len() == 0 {
        assert(front + back =~= back);
        assert(members_bytes(front) + members_bytes(back) =~= members_bytes(back));
    } else {
        lemma_members_bytes_join(front.drop_first(), back);
        assert((front + back).drop_first() =~= front.drop_first() + back);
        assert((front + back).first() == front.first());
        assert(members_bytes(front + back) =~= members_bytes(front) + members_bytes(back));
    }
}

/// The records of two lists, one behind the other, are the records of the
/// joined list.
pub proof fn lemma_records_bytes_join(
    front: Seq<(Seq<char>, Amf0Model)>,
    back: Seq<(Seq<char>, Amf0Model)>,
)
    ensures
        records_bytes(front + back) == records_bytes(front) + records_bytes(back),
    decreases front.len(),
{
    if front.len() == 0 {
        assert(front + back =~= back);
        assert(records_bytes(front) + records_bytes(back) =~= records_bytes(back));
    } else {
        lemma_records_bytes_join(front.drop_first(), back);
        assert((front + back).drop_first() =~= front.drop_first() + back);
        assert((front + back).first() == front.first());
        assert(records_bytes(front + back) =~= records_bytes(front) + records_bytes(back));
    }
}

/// A list of one pair is written as that pair.
pub proof fn lemma_bytes_of_one(pair: (Seq<char>, Amf0Model))
    ensures
        members_bytes(seq![pair]) == member_bytes(pair),
        records_bytes(seq![pair]) == record_bytes(pair),
{
    let none = Seq::<(Seq<char>, Amf0Model)>::empty();
    assert(seq![pair].drop_first() =~= none);
    assert(seq![pair].first() == pair);
    assert(members_bytes(none) =~= Seq::empty());
    assert(records_bytes(none) =~= Seq::empty());
    assert(members_bytes(seq![pair]) =~= member_bytes(pair));
    assert(records_bytes(seq![pair]) =~= record_bytes(pair));
}

impl Amf0Value {
    /// The type tag under which this value is written.
    pub fn type_(&self) -> (tag: u8)
        ensures
            tag == tag_of(self@),
    {
        match self {
            Amf0Value::Num(_) => 0,
            Amf0Value::Bool(_) => 1,
            Amf0Value::String(_) => 2,
            Amf0Value::Object(_) => 3,
        }
    }
}

/// Writes the key of a pair and the type tag of its value.  The key is
/// rejected, before anything is written, where its length prefix cannot
/// state its length.
pub fn write_key_and_type(pair: &Pair<Amf0Value>, writer: &mut Writer) -> (res: Result<
    (),
    SolError,
>)
    ensures
        if text_fits(pair.key@) {
            res is Ok && wrote(
                *old(writer),
                *final(writer),
                text_bytes(pair.key@).push(tag_of(pair.value@)),
            )
        } else {
            res == Err::<(), SolError>(SolError::StringTooLong) && *final(writer) == *old(writer)
        },
{
    if !text_ok(pair.key.as_str()) {
        return Err(SolError::StringTooLong);
    }
    put_key_and_type(pair, writer);
    Ok(())
}

/// Writes what follows the type tag of a value.  A nested object is written
/// member by member, and ended by an empty key and the end tag.  The value
/// is rejected, before anything is written, where it holds a key or a
/// string whose length prefix cannot state its length.
pub fn write_value(value: &Amf0Value, writer: &mut Writer) -> (res: Result<(), SolError>)
    ensures
        if value_fits(value@) {
            res is Ok && wrote(*old(writer), *final(writer), payload_bytes(value@))
        } else {
            res == Err::<(), SolError>(SolError::StringTooLong) && *final(writer) == *old(writer)
        },
{
    if !value_ok(value) {
        return Err(SolError::StringTooLong);
    }
    put_value(value, writer);
    Ok(())
}

/// Writes a key that fits and the type tag of its value.
fn put_key_and_type(pair: &Pair<Amf0Value>, writer: &mut Writer)
    requires
        text_fits(pair.key@),
    ensures
        wrote(*old(writer), *final(writer), text_bytes(pair.key@).push(tag_of(pair.value@))),
{
    write_text(writer, pair.key.as_str());
    let ghost mid = *writer;
    writer.write_u8(pair.value.type_());
    proof {
        lemma_wrote_then(
            *old(writer),
            mid,
            *writer,
            text_bytes(pair.key@),
            seq![tag_of(pair.value@)],
        );
        assert(text_bytes(pair.key@) + seq![tag_of(pair.value@)] =~= text_bytes(pair.key@).push(
            tag_of(pair.value@),
        ));
    }
}

/// Writes what follows the type tag of a value whose strings fit.
fn put_value(value: &Amf0Value, writer: &mut Writer)
    requires
        value_fits(value@),
    ensures
        wrote(*old(writer), *final(writer), payload_bytes(value@)),
    decreases value,
{
    match value {
        Amf0Value::Num(bits) => writer.write_u64(*bits),
        Amf0Value::Bool(b) => writer.write_u8(if *b { 1 } else { 0 }),
        Amf0Value::String(text) => write_text(writer, text.as_str()),
        Amf0Value::Object(members) => {
            proof {
                lemma_object_view(*members);
            }
            let ghost all = pairs_view(members@);
            let mut i: usize = 0;
            let start: usize = writer.offset();
            assert(all.take(0) =~= Seq::empty());
            assert(wrote(*old(writer), *writer, members_bytes(all.take(0)))) by {
                assert(overlay(old(writer).bytes(), start as nat, Seq::empty()) =~= old(
                    writer,
                ).bytes());
            }
            while i < members.len()
                invariant
                    i <= members.len(),
                    *value == Amf0Value::Object(*members),
                    all == pairs_view(members@),
                    pairs_fit(all),
                    wrote(*old(writer), *writer, members_bytes(all.take(i as int))),
                decreases members.len() - i,
            {
                let ghost before = *writer;
                let member = &members[i];
                assert(all[i as int] == member@);
                put_key_and_type(member, writer);
                let ghost mid = *writer;
                assert(decreases_to!(*value => member.value)) by {
                    assert(decreases_to!(*value => value->Object_0));
                    assert(decreases_to!(value->Object_0 => value->Object_0[i as int]));
                    assert(decreases_to!(value->Object_0[i as int] => value->Object_0[i as int].value));
                }
                put_value(&member.value, writer);
                proof {
                    let head = text_bytes(member.key@).push(tag_of(member.value@));
                    lemma_wrote_then(before, mid, *writer, head, payload_bytes(member.value@));
                    lemma_wrote_then(
                        *old(writer),
                        before,
                        *writer,
                        members_bytes(all.take(i as int)),
                        member_bytes(member@),
                    );
                    lemma_bytes_of_one(member@);
                    lemma_members_bytes_join(all.take(i as int), seq![member@]);
                    assert(all.take(i as int) + seq![member@] =~= all.take(i + 1));
                }
                i = i + 1;
            }
            assert(all.take(i as int) =~= all);
            let ghost before = *writer;
            proof {
                reveal_strlit("");
                assert(""@ =~= Seq::<char>::empty());
                assert(vstd::utf8::encode_utf8(Seq::<char>::empty()).len() == 0);
            }
            write_text(writer, "");
            let ghost mid = *writer;
            writer.write_u8(OBJECT_END);
            proof {
                lemma_wrote_then(before, mid, *writer, text_bytes(""@), seq![OBJECT_END]);
                assert(text_bytes(""@) + seq![OBJECT_END] =~= sentinel_bytes());
                lemma_wrote_then(
                    *old(writer),
                    before,
                    *writer,
                    members_bytes(all),
                    sentinel_bytes(),
                );
            }
        },
    }
}

/// Whether every string in a value is short enough to be written.
pub fn value_ok(value: &Amf0Value) -> (ok: bool)
    ensures
        ok == value_fits(value@),
    decreases value,
{
    match value {
        Amf0Value::String(text) => text_ok(text.as_str()),
        Amf0Value::Object(members) => {
            proof {
                lemma_object_view(*members);
            }
            let ghost all = pairs_view(members@);
            let mut i: usize = 0;
            while i < members.len()
                invariant
                    i <= members.len(),
                    *value == Amf0Value::Object(*members),
                    value@ == Amf0Model::Object(all),
                    all == pairs_view(members@),
                    forall|j: int|
                        0 <= j < i ==> text_fits((#[trigger] all[j]).0) && value_fits(all[j].1),
                decreases members.len() - i,
            {
                let member = &members[i];
                assert(all[i as int] == member@);
                assert(decreases_to!(*value => member.value)) by {
                    assert(decreases_to!(*value => value->Object_0));
                    assert(decreases_to!(value->Object_0 => value->Object_0[i as int]));
                    assert(decreases_to!(value->Object_0[i as int] => value->Object_0[i as int].value));
                }
                if !text_ok(member.key.as_str()) || !value_ok(&member.value) {
                    return false;
                }
                i = i + 1;
            }
            true
        },
        _ => true,
    }
}

/// Whether every key and every string in a list of pairs is short enough
/// to be written.
pub fn pairs_ok(pairs: &Vec<Pair<Amf0Value>>) -> (ok: bool)
    ensures
        ok == pairs_fit(pairs_view(pairs@)),
{
    let ghost all = pairs_view(pairs@);
    let mut i: usize = 0;
    while i < pairs.len()
        invariant
            i <= pairs.len(),
            all == pairs_view(pairs@),
            forall|j: int| 0 <= j < i ==> text_fits((#[trigger] all[j]).0) && value_fits(all[j].1),
        decreases pairs.len() - i,
    {
        let pair = &pairs[i];
        assert(all[i as int] == pair@);
        if !text_ok(pair.key.as_str()) || !value_ok(&pair.value) {
            return false;
        }
        i = i + 1;
    }
    true
}

/// The most bytes that the 32-bit length field of a document can state.
pub const MAX_BODY: u64 = 0xFFFF_FFFF;

/// A byte count grown by `n`, unless that is more than the length field of
/// a document can state.
pub open spec fn grown(count: u64, n: nat) -> Option<u64> {
    if count + n <= MAX_BODY {
        Some((count + n) as u64)
    } else {
        None
    }
}

/// A byte count grown by `n`, unless that is more than the length field of
/// a document can state.
pub fn grow(count: u64, n: usize) -> (total: Option<u64>)
    requires
        count <= MAX_BODY,
    ensures
        total == grown(count, n as nat),
{
    if n as u64 <= MAX_BODY - count {
        Some(count + n as u64)
    } else {
        None
    }
}

/// Adds to `count` the bytes that a value takes behind its type tag.
pub fn value_len(value: &Amf0Value, count: u64) -> (total: Option<u64>)
    requires
        value_fits(value@),
        count <= MAX_BODY,
    ensures
        total == grown(count, payload_bytes(value@).len()),
    decreases value,
{
    match value {
        Amf0Value::Num(_) => {
            proof {
                crate::endian::lemma_be_bytes_len(value@->Num_0 as nat, 8);
            }
            grow(count, 8)
        },
        Amf0Value::Bool(_) => grow(count, 1),
        Amf0Value::String(text) => {
            proof {
                lemma_text_bytes_len(text@);
            }
            grow(count, text.as_str().as_bytes().len() + 2)
        },
        Amf0Value::Object(members) => {
            proof {
                lemma_object_view(*members);
                lemma_sentinel_reads_back(Seq::empty());
            }
            let ghost all = pairs_view(members@);
            let mut total: u64 = count;
            let mut i: usize = 0;
            assert(all.take(0) =~= Seq::empty());
            while i < members.len()
                invariant
                    i <= members.len(),
                    *value == Amf0Value::Object(*members),
                    value@ == Amf0Model::Object(all),
                    all == pairs_view(members@),
                    pairs_fit(all),
                    total == count + members_bytes(all.take(i as int)).len(),
                    total <= MAX_BODY,
                decreases members.len() - i,
            {
                let member = &members[i];
                proof {
                    assert(all[i as int] == member@);
                    lemma_text_bytes_len(member.key@);
                    lemma_bytes_of_one(member@);
                    lemma_members_bytes_join(all.take(i as int), seq![member@]);
                    assert(all.take(i as int) + seq![member@] =~= all.take(i + 1));
                    lemma_members_bytes_join(all.take(i + 1), all.skip(i + 1));
                    assert(all.take(i + 1) + all.skip(i + 1) =~= all);
                    assert(decreases_to!(*value => member.value)) by {
                        assert(decreases_to!(*value => value->Object_0));
                        assert(decreases_to!(value->Object_0 => value->Object_0[i as int]));
                        assert(decreases_to!(value->Object_0[i as int] => value->Object_0[i as int].value));
                    }
                }
                let with_key = match grow(total, member.key.as_str().as_bytes().len() + 3) {
                    Some(n) => n,
                    None => {
                        return None;
                    },
                };
                total = match value_len(&member.value, with_key) {
                    Some(n) => n,
                    None => {
                        return None;
                    },
                };
                i = i + 1;
            }
            assert(all.take(i as int) =~= all);
            grow(total, 3)
        },
    }
}

/// The number of bytes that the body of a document takes, unless that is
/// more than its length field can state.
pub fn records_len(pairs: &Vec<Pair<Amf0Value>>) -> (total: Option<u64>)
    requires
        pairs_fit(pairs_view(pairs@)),
    ensures
        total == grown(0, records_bytes(pairs_view(pairs@)).len()),
{
    let ghost all = pairs_view(pairs@);
    let mut total: u64 = 0;
    let mut i: usize = 0;
    assert(all.take(0) =~= Seq::empty());
    while i < pairs.len()
        invariant
            i <= pairs.len(),
            all == pairs_view(pairs@),
            pairs_fit(all),
            total == records_bytes(all.take(i as int)).len(),
            total <= MAX_BODY,
        decreases pairs.len() - i,
    {
        let pair = &pairs[i];
        proof {
            assert(all[i as int] == pair@);
            lemma_text_bytes_len(pair.key@);
            lemma_bytes_of_one(pair@);
            lemma_records_bytes_join(all.take(i as int), seq![pair@]);
            assert(all.take(i as int) + seq![pair@] =~= all.take(i + 1));
            lemma_records_bytes_join(all.take(i + 1), all.skip(i + 1));
            assert(all.take(i + 1) + all.skip(i + 1) =~= all);
        }
        let with_key = match grow(total, pair.key.as_str().as_bytes().len() + 3) {
            Some(n) => n,
            None => {
                return None;
            },
        };
        let with_value = match value_len(&pair.value, with_key) {
            Some(n) => n,
            None => {
                return None;
            },
        };
        total = match grow(with_value, 1) {
            Some(n) => n,
            None => {
                return None;
            },
        };
        i = i + 1;
    }
    assert(all.take(i as int) =~= all);
    Some(total)
}

/// Writes the body of a document: for each pair its key, the type tag and
/// the payload of its value, and one padding byte of zero.
pub fn write_records(pairs: &Vec<Pair<Amf0Value>>, writer: &mut Writer)
    requires
        pairs_fit(pairs_view(pairs@)),
    ensures
        wrote(*old(writer), *final(writer), records_bytes(pairs_view(pairs@))),
{
    let ghost all = pairs_view(pairs@);
    let start: usize = writer.offset();
    let mut i: usize = 0;
    assert(all.take(0) =~= Seq::empty());
    assert(wrote(*old(writer), *writer, records_bytes(all.take(0)))) by {
        assert(overlay(old(writer).bytes(), start as nat, Seq::empty()) =~= old(writer).bytes());
    }
    while i < pairs.len()
        invariant
            i <= pairs.len(),
            all == pairs_view(pairs@),
            pairs_fit(all),
            wrote(*old(writer), *writer, records_bytes(all.take(i as int))),
        decreases pairs.len() - i,
    {
        let ghost before = *writer;
        let pair = &pairs[i];
        assert(all[i as int] == pair@);
        put_key_and_type(pair, writer);
        let ghost keyed = *writer;
        put_value(&pair.value, writer);
        let ghost valued = *writer;
        writer.write_u8(0);
        proof {
            let head = text_bytes(pair.key@).push(tag_of(pair.value@));
            lemma_wrote_then(before, keyed, valued, head, payload_bytes(pair.value@));
            lemma_wrote_then(before, valued, *writer, member_bytes(pair@), seq![0u8]);
            assert(member_bytes(pair@) + seq![0u8] =~= record_bytes(pair@));
            lemma_wrote_then(
                *old(writer),
                before,
                *writer,
                records_bytes(all.take(i as int)),
                record_bytes(pair@),
            );
            lemma_bytes_of_one(pair@);
            lemma_records_bytes_join(all.take(i as int), seq![pair@]);
            assert(all.take(i as int) + seq![pair@] =~= all.take(i + 1));
        }
        i = i + 1;
    }
    assert(all.take(i as int) =~= all);
}

} // verus!
