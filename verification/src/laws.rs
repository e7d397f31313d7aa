//! What holds of reading and writing together.

use crate::amf0::{
    lemma_members_read_back, lemma_records_read_back, lemma_sentinel_reads_back, members_bytes,
    pairs_fit, parse_key_and_tag, parse_members, parse_payload, records_bytes, sentinel_bytes,
    OBJECT_END,
};
use crate::container::{
    header_bytes, lemma_header_len, lemma_header_reads_back, magic,
    parse_amf0_document, parse_header, tail_marker, type_marker, AmfWrite, HeaderModel, SolModel,
};
use crate::document::{pairs_view, Amf0, Amf0Model, AmfVer, Sol};
use crate::endian::{be_bytes, be_value, lemma_be_reads_back, lemma_radix_pow_values};
use crate::error::SolError;
use crate::text::parse_text;
use crate::traverse::{edited_pair, passes, Change, Edit, Editable};
use crate::document::{Amf0Value, Amf3Value, Pair};
use vstd::prelude::*;

verus! {

/// A document of AMF0 values that can be written reads back as itself:
/// the same root name, and the same pairs in the same order with the same
/// values.  Its declared length is then the length of its body.
pub proof fn law_round_trip(sol: Sol<Amf0>)
    ensures
        sol.file_bytes() matches Ok(bytes) ==> parse_amf0_document(bytes) == Ok::<_, SolError>(
            SolModel {
                len: records_bytes(pairs_view(sol.root_object@)).len() as u32,
                root_name: sol.root_name@,
                pairs: pairs_view(sol.root_object@),
            },
        ),
{
    if let Ok(bytes) = sol.file_bytes() {
        let pairs = pairs_view(sol.root_object@);
        let body = records_bytes(pairs);
        let header = header_bytes(body.len() as u32, sol.root_name@, 0);
        crate::document::lemma_version_ids();
        assert(sol.amf_bytes() == Ok::<_, SolError>(body));
        assert(bytes == header + body);
        lemma_header_reads_back(body.len() as u32, sol.root_name@, 0, body);
        assert(bytes.skip(header.len() as int) =~= body + Seq::empty());
        lemma_records_read_back(pairs, Seq::empty());
    }
}

/// Writing a document that was read from written bytes gives those bytes
/// again, one for one.
pub proof fn law_rewrite_is_exact(sol: Sol<Amf0>, read: Sol<Amf0>)
    requires
        sol.file_bytes() is Ok,
        parse_amf0_document(sol.file_bytes()->Ok_0) == Ok::<_, SolError>(read@),
    ensures
        read.file_bytes() == sol.file_bytes(),
{
    law_round_trip(sol);
}

/// In a document as it is written, the length field states the number of
/// bytes of the body, and the body is all that follows the header.
pub proof fn law_declared_length<Ver: AmfVer>(sol: Sol<Ver>) where Sol<Ver>: AmfWrite
    ensures
        sol.file_bytes() matches Ok(bytes) ==> {
            let body = sol.amf_bytes()->Ok_0;
            &&& be_value(bytes.subrange(2, 6)) == body.len()
            &&& bytes.len() == 22 + vstd::utf8::encode_utf8(sol.root_name@).len() + body.len()
            &&& bytes.skip(bytes.len() - body.len()) == body
        },
{
    if let Ok(bytes) = sol.file_bytes() {
        let body = sol.amf_bytes()->Ok_0;
        let len = body.len() as u32;
        reveal(header_bytes);
        sol.lemma_amf_bytes_bound();
        lemma_header_len(len, sol.root_name@, Ver::ID);
        lemma_radix_pow_values();
        let after_len = type_marker() + tail_marker() + crate::text::text_bytes(sol.root_name@)
            + crate::container::version_block(Ver::ID) + body;
        lemma_be_reads_back(len as nat, 4, after_len);
        assert(bytes.skip(2) =~= be_bytes(len as nat, 4) + after_len);
        assert(bytes.subrange(2, 6) =~= bytes.skip(2).take(4));
        assert(bytes.skip(bytes.len() - body.len()) =~= body);
    }
}

/// The members of a nested object, written with the sentinel behind them,
/// read back as exactly those members, and the reading ends just behind
/// the sentinel, whatever follows it.
pub proof fn law_object_ends_at_sentinel(members: Seq<(Seq<char>, Amf0Model)>, tail: Seq<u8>)
    requires
        pairs_fit(members),
    ensures
        parse_payload(3, members_bytes(members) + sentinel_bytes() + tail) == Ok::<_, SolError>(
            (Amf0Model::Object(members), members_bytes(members).len() + sentinel_bytes().len()),
        ),
{
    lemma_members_read_back(members, tail);
    lemma_sentinel_reads_back(tail);
}

/// Wherever the members of a nested object can be read, the last byte that
/// the reading takes is the end tag.
pub proof fn law_members_end_with_tag(input: Seq<u8>)
    ensures
        parse_members(input) matches Ok((_, n)) ==> 3 <= n <= input.len() && input[n - 1]
            == OBJECT_END,
    decreases input.len(),
{
    reveal(parse_text);
    if let Ok(((key, tag), n)) = parse_key_and_tag(input) {
        if tag != OBJECT_END {
            if let Ok((value, m)) = parse_payload(tag, input.skip(n as int)) {
                if input.len() >= n + m + 3 {
                    law_members_end_with_tag(input.skip(n + m as int));
                }
            }
        }
    }
}

/// Bytes that do not start with the magic number are no document of this
/// format.
pub proof fn law_bad_magic(input: Seq<u8>)
    requires
        input.len() >= 2,
        input[0] != 0x00 || input[1] != 0xBF,
    ensures
        parse_header(input) == Err::<(HeaderModel, nat), _>(SolError::UnsupportedFormat),
{
    reveal(parse_header);
    assert(input.subrange(0, 2)[0] == input[0]);
    assert(input.subrange(0, 2)[1] == input[1]);
    assert(magic()[0] == 0x00 && magic()[1] == 0xBF);
}

/// Bytes that start with the magic number, but go on with another type
/// marker or another tail constant, have a malformed header.
pub proof fn law_bad_marker(input: Seq<u8>)
    requires
        input.len() >= 16,
        input.subrange(0, 2) == magic(),
        input.subrange(6, 10) != type_marker() || input.subrange(10, 16) != tail_marker(),
    ensures
        parse_header(input) == Err::<(HeaderModel, nat), _>(SolError::MalformedHeader),
{
    reveal(parse_header);
}

/// A pair whose key does not pass the filter comes out of an edit as it
/// went in, whatever the change; so a filter that no key passes leaves a
/// list as it was, pair by pair.
pub proof fn law_filter_keeps<V: Editable>(pair: Pair<V>, filter: Seq<char>, change: Change)
    requires
        !passes(pair.key@, filter),
    ensures
        edited_pair(pair, filter, change) == pair,
{
}

/// A value that an editor shows as a label, because it cannot be changed
/// there or because its shape is not known, comes out of every edit as it
/// went in.
pub proof fn law_labels_stay(amf0: Amf0Value, amf3: Amf3Value, edit: Edit)
    ensures
        amf0.shown() is Label ==> amf0.edited(edit) == amf0,
        amf3.shown() is Label ==> amf3.edited(edit) == amf3,
{
}

} // verus!
