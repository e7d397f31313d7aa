//! The container around the values: a fixed header, the root name, the
//! version of the value encoding, and a body whose length the header
//! declares.

use crate::amf0::{
    lemma_records_faults, pairs_fit, pairs_ok, parse_records, read_amf0, records_bytes,
    records_len, write_records, MAX_BODY,
};
use crate::cursor::{
    advanced, kept, lemma_overlay_within, lemma_wrote_then, overlay, wrote, Reader, Writer,
};
use crate::amf3::{amf3_pairs_are, amf3_parse_records, amf3_start, read_amf3};
use crate::document::{pairs_view, Amf0, Amf0Model, Amf3, AmfVer, Sol, SolVariant};
use crate::endian::{
    be_bytes, be_value, lemma_be_bytes_len, lemma_be_reads_back, lemma_radix_pow_values,
};
use crate::error::{read_fault, SolError};
use crate::text::{
    lemma_text_bytes_len, lemma_text_reads_back, parse_text, read_text, text_bytes, text_fits,
    text_ok, write_text,
};
use vstd::prelude::*;

verus! {

/// The two bytes that every document starts with.
pub open spec fn magic() -> Seq<u8> {
    seq![0x00u8, 0xBFu8]
}

/// The four bytes `TCSO` that follow the length field.
pub open spec fn type_marker() -> Seq<u8> {
    seq![0x54u8, 0x43u8, 0x53u8, 0x4Fu8]
}

/// The six constant bytes that follow the type marker.
pub open spec fn tail_marker() -> Seq<u8> {
    seq![0x00u8, 0x04u8, 0x00u8, 0x00u8, 0x00u8, 0x00u8]
}

/// The four bytes that follow the root name; the last names the version.
pub open spec fn version_block(version: u8) -> Seq<u8> {
    seq![0u8, 0u8, 0u8, version]
}

/// Everything in front of the body.
#[verifier::opaque]
pub open spec fn header_bytes(len: u32, root_name: Seq<char>, version: u8) -> Seq<u8> {
    magic() + be_bytes(len as nat, 4) + type_marker() + tail_marker() + text_bytes(root_name)
        + version_block(version)
}

/// A whole document on the wire: the header, which declares the length of
/// the body, and the body.
pub open spec fn document_bytes(root_name: Seq<char>, version: u8, body: Seq<u8>) -> Seq<u8> {
    header_bytes(body.len() as u32, root_name, version) + body
}

/// What the header of a document states.
#[derive(Debug, PartialEq)]
pub struct Header {
    /// The declared length of the body in bytes.
    pub len: u32,
    pub root_name: String,
    /// The version of the value encoding: 0 or 3.
    pub version: u8,
}

/// The content of a [`Header`].
pub struct HeaderModel {
    pub len: u32,
    pub root_name: Seq<char>,
    pub version: u8,
}

impl View for Header {
    type V = HeaderModel;

    open spec fn view(&self) -> HeaderModel {
        HeaderModel { len: self.len, root_name: self.root_name@, version: self.version }
    }
}

/// Reading a header from the front of `input`: what it states, and the
/// number of bytes it took.  The checks come in the order of the fields.
#[verifier::opaque]
pub open spec fn parse_header(input: Seq<u8>) -> Result<(HeaderModel, nat), SolError> {
    if input.len() < 2 {
        Err(SolError::UnexpectedEof)
    } else if input.subrange(0, 2) != magic() {
        Err(SolError::UnsupportedFormat)
    } else if input.len() < 10 {
        Err(SolError::UnexpectedEof)
    } else if input.subrange(6, 10) != type_marker() {
        Err(SolError::MalformedHeader)
    } else if input.len() < 16 {
        Err(SolError::UnexpectedEof)
    } else if input.subrange(10, 16) != tail_marker() {
        Err(SolError::MalformedHeader)
    } else {
        match parse_text(input.skip(16)) {
            Err(e) => Err(e),
            Ok((root_name, n)) => if input.len() < 16 + n + 4 {
                Err(SolError::UnexpectedEof)
            } else {
                let version = input[16 + n + 3 as int];
                if version == 0 || version == 3 {
                    Ok(
                        (
                            HeaderModel {
                                len: be_value(input.subrange(2, 6)) as u32,
                                root_name,
                                version,
                            },
                            16 + n + 4,
                        ),
                    )
                } else {
                    Err(SolError::UnknownVersion)
                }
            },
        }
    }
}

/// One of the two versions of the value encoding.
#[derive(Clone, Copy, Debug, PartialEq, Eq, Structural)]
pub enum AmfVerSpec {
    Amf0,
    Amf3,
}

/// The version that a version block names with its last byte, if it names
/// one.
pub fn amf_ver_spec(blob: [u8; 4]) -> (version: Option<AmfVerSpec>)
    ensures
        version == if blob@[3] == 0 {
            Some(AmfVerSpec::Amf0)
        } else if blob@[3] == 3 {
            Some(AmfVerSpec::Amf3)
        } else {
            None
        },
{
    if blob[3] == 0 {
        Some(AmfVerSpec::Amf0)
    } else if blob[3] == 3 {
        Some(AmfVerSpec::Amf3)
    } else {
        None
    }
}

/// Reads the header of a document: magic, declared length, type marker,
/// tail constant, root name and version block.
pub fn read_header(reader: &mut Reader) -> (res: Result<Header, SolError>)
    ensures
        kept(*old(reader), *final(reader)),
        match parse_header(old(reader).unread()) {
            Ok((header, n)) => res is Ok && res->Ok_0@ == header && advanced(
                *old(reader),
                *final(reader),
                n,
            ),
            Err(e) => res is Err && res->Err_0 == e,
        },
{
    reveal(parse_header);
    let ghost input = reader.unread();
    let magic = reader.read_bytes(2)?;
    assert(magic@ =~= input.subrange(0, 2));
    if magic[0] != 0x00 || magic[1] != 0xBF {
        return Err(SolError::UnsupportedFormat);
    }
    assert(magic@ =~= self::magic());
    let ghost at_len = reader.unread();
    assert(at_len =~= input.skip(2));
    let len: u32 = reader.read_u32()?;
    assert(at_len.take(4) =~= input.subrange(2, 6));
    let marker = reader.read_bytes(4)?;
    assert(marker@ =~= input.subrange(6, 10));
    if marker[0] != 0x54 || marker[1] != 0x43 || marker[2] != 0x53 || marker[3] != 0x4F {
        return Err(SolError::MalformedHeader);
    }
    assert(marker@ =~= type_marker());
    let tail = reader.read_bytes(6)?;
    assert(tail@ =~= input.subrange(10, 16));
    if tail[0] != 0x00 || tail[1] != 0x04 || tail[2] != 0x00 || tail[3] != 0x00 || tail[4] != 0x00
        || tail[5] != 0x00 {
        return Err(SolError::MalformedHeader);
    }
    assert(tail@ =~= tail_marker());
    assert(reader.unread() =~= input.skip(16));
    let root_name = read_text(reader)?;
    let ghost n = reader.position() - old(reader).position() - 16;
    assert(reader.unread() =~= input.skip(16 + n));
    let block = reader.read_bytes(4)?;
    assert(block@[3] == input[16 + n + 3]);
    match amf_ver_spec([block[0], block[1], block[2], block[3]]) {
        Some(_) => Ok(Header { len, root_name, version: block[3] }),
        None => Err(SolError::UnknownVersion),
    }
}

/// The body of a document of one version of the value encoding.
pub trait AmfWrite {
    /// The bytes of the body, or why the document cannot be written.
    spec fn amf_bytes(&self) -> Result<Seq<u8>, SolError>;

    /// A body that can be written is one whose length the header can
    /// state.
    proof fn lemma_amf_bytes_bound(&self)
        ensures
            self.amf_bytes() matches Ok(body) ==> body.len() <= MAX_BODY,
    ;

    /// Checks that the body can be written, and measures it.
    fn amf_len(&self) -> (res: Result<u32, SolError>)
        ensures
            match self.amf_bytes() {
                Ok(body) => res == Ok::<u32, SolError>(body.len() as u32) && body.len()
                    <= MAX_BODY,
                Err(e) => res == Err::<u32, SolError>(e),
            },
    ;

    /// Writes the body, and says how many bytes that took.
    fn write_amf(&self, writer: &mut Writer) -> (n: u64)
        requires
            self.amf_bytes() is Ok,
        ensures
            wrote(*old(writer), *final(writer), self.amf_bytes()->Ok_0),
            n == self.amf_bytes()->Ok_0.len(),
    ;
}

impl AmfWrite for Sol<Amf0> {
    /// The records of the pairs.  A key or a string of more than 65535
    /// bytes cannot be written, nor can a body of more bytes than the
    /// length field can state.
    open spec fn amf_bytes(&self) -> Result<Seq<u8>, SolError> {
        let pairs = pairs_view(self.root_object@);
        if !pairs_fit(pairs) {
            Err(SolError::StringTooLong)
        } else if records_bytes(pairs).len() > MAX_BODY {
            Err(SolError::LengthMismatch)
        } else {
            Ok(records_bytes(pairs))
        }
    }

    proof fn lemma_amf_bytes_bound(&self) {
    }

    fn amf_len(&self) -> (res: Result<u32, SolError>) {
        if !pairs_ok(&self.root_object) {
            return Err(SolError::StringTooLong);
        }
        match records_len(&self.root_object) {
            Some(n) => Ok(n as u32),
            None => Err(SolError::LengthMismatch),
        }
    }

    fn write_amf(&self, writer: &mut Writer) -> (n: u64) {
        let start: usize = writer.offset();
        write_records(&self.root_object, writer);
        (writer.offset() - start) as u64
    }
}

impl<Ver: AmfVer> Sol<Ver> where Self: AmfWrite {
    /// The whole document on the wire, or why it cannot be written.  The
    /// declared length is that of the body as it is written; the `len` of
    /// the document in memory plays no part.
    pub open spec fn file_bytes(&self) -> Result<Seq<u8>, SolError> {
        if !text_fits(self.root_name@) {
            Err(SolError::StringTooLong)
        } else {
            match self.amf_bytes() {
                Err(e) => Err(e),
                Ok(body) => Ok(document_bytes(self.root_name@, Ver::ID, body)),
            }
        }
    }

    /// The document as the bytes of a file.
    pub fn to_bytes(&self) -> (res: Result<Vec<u8>, SolError>)
        ensures
            match self.file_bytes() {
                Ok(bytes) => res is Ok && res->Ok_0@ == bytes,
                Err(e) => res is Err && res->Err_0 == e,
            },
    {
        let mut writer = Writer::new();
        self.write(&mut writer)?;
        assert(overlay(Seq::empty(), 0, self.file_bytes()->Ok_0) =~= self.file_bytes()->Ok_0);
        Ok(writer.into_bytes())
    }

    /// Writes the document at the position of the writer.
    ///
    /// The length field is first written as zero and then, when the body
    /// has been written and counted, overwritten with the count.  The
    /// writer is left just behind the length field.  A document that cannot
    /// be written leaves the writer as it was.
    pub fn write(&self, writer: &mut Writer) -> (res: Result<(), SolError>)
        ensures
            match self.file_bytes() {
                Ok(bytes) => res is Ok && final(writer).bytes() == overlay(
                    old(writer).bytes(),
                    old(writer).position(),
                    bytes,
                ) && final(writer).position() == old(writer).position() + 6,
                Err(e) => res == Err::<(), SolError>(e) && *final(writer) == *old(writer),
            },
    {
        if !text_ok(self.root_name.as_str()) {
            return Err(SolError::StringTooLong);
        }
        let _measured: u32 = self.amf_len()?;
        let ghost name = self.root_name@;
        let ghost body = self.amf_bytes()->Ok_0;
        let ghost w0 = *writer;
        let magic: [u8; 2] = [0x00, 0xBF];
        writer.write_all(magic.as_slice());
        let ghost w1 = *writer;
        let len_pos: usize = writer.offset();
        writer.write_u32(0);
        let ghost w2 = *writer;
        let marker: [u8; 4] = [0x54, 0x43, 0x53, 0x4F];
        writer.write_all(marker.as_slice());
        let ghost w3 = *writer;
        let tail: [u8; 6] = [0x00, 0x04, 0x00, 0x00, 0x00, 0x00];
        writer.write_all(tail.as_slice());
        let ghost w4 = *writer;
        write_text(writer, self.root_name.as_str());
        let ghost w5 = *writer;
        let block: [u8; 4] = [0, 0, 0, Ver::ID];
        writer.write_all(block.as_slice());
        let ghost w6 = *writer;
        let written: u64 = self.write_amf(writer);
        let ghost w7 = *writer;
        let ghost draft = header_bytes(0, name, Ver::ID) + body;
        proof {
            reveal(header_bytes);
            assert(magic@ =~= self::magic());
            assert(marker@ =~= type_marker());
            assert(tail@ =~= tail_marker());
            assert(block@ =~= version_block(Ver::ID));
            lemma_wrote_then(w0, w1, w2, self::magic(), be_bytes(0, 4));
            lemma_wrote_then(w0, w2, w3, self::magic() + be_bytes(0, 4), type_marker());
            lemma_wrote_then(
                w0,
                w3,
                w4,
                self::magic() + be_bytes(0, 4) + type_marker(),
                tail_marker(),
            );
            lemma_wrote_then(
                w0,
                w4,
                w5,
                self::magic() + be_bytes(0, 4) + type_marker() + tail_marker(),
                text_bytes(name),
            );
            lemma_wrote_then(
                w0,
                w5,
                w6,
                self::magic() + be_bytes(0, 4) + type_marker() + tail_marker() + text_bytes(name),
                version_block(Ver::ID),
            );
            lemma_wrote_then(w0, w6, w7, header_bytes(0, name, Ver::ID), body);
            lemma_be_bytes_len(0, 4);
            lemma_be_bytes_len(written as nat, 4);
        }
        let sought = writer.seek(len_pos);
        assert(sought is Ok);
        let ghost w8 = *writer;
        writer.write_u32(written as u32);
        proof {
            reveal(header_bytes);
            lemma_overlay_within(
                w0.bytes(),
                w0.position(),
                draft,
                2,
                be_bytes(written as nat, 4),
            );
            assert(draft.take(2) + be_bytes(written as nat, 4) + draft.skip(6) =~= document_bytes(
                name,
                Ver::ID,
                body,
            ));
        }
        Ok(())
    }
}

/// The content of an AMF0 document.
pub struct SolModel {
    pub len: u32,
    pub root_name: Seq<char>,
    pub pairs: Seq<(Seq<char>, Amf0Model)>,
}

impl View for Sol<Amf0> {
    type V = SolModel;

    open spec fn view(&self) -> SolModel {
        SolModel {
            len: self.len,
            root_name: self.root_name@,
            pairs: pairs_view(self.root_object@),
        }
    }
}

/// Reading a whole AMF0 document from `input`: a header that names
/// version 0, and a body of the length that the header declares.
pub open spec fn parse_amf0_document(input: Seq<u8>) -> Result<SolModel, SolError> {
    match parse_header(input) {
        Err(e) => Err(e),
        Ok((header, n)) => match parse_records(input.skip(n as int), header.len as nat) {
            Err(e) => Err(e),
            Ok(pairs) => Ok(SolModel { len: header.len, root_name: header.root_name, pairs }),
        },
    }
}

/// Reading a header fails as an unsupported format exactly where two bytes
/// are there and are not the magic number, and else only as the bytes
/// running out, a malformed header, a root name that is not UTF-8, or an
/// unknown version.
pub proof fn lemma_header_faults(input: Seq<u8>)
    ensures
        parse_header(input) matches Err(e) ==> read_fault(e) && e != SolError::LengthMismatch
            && e != SolError::UnexpectedType && (e == SolError::UnsupportedFormat <==> input.len()
            >= 2 && input.subrange(0, 2) != magic()),
        parse_header(input) is Ok ==> input.len() >= 2 && input.subrange(0, 2) == magic(),
{
    reveal(parse_header);
    reveal(parse_text);
}

/// Reads a document from the bytes of a file.
///
/// The header decides everything up to the body.  An AMF0 body is read
/// here, and the result is exactly what the bytes state.  An AMF3 body is
/// read by the decoder of the `amf` crate, record by record, inside the
/// declared length, and the result is exactly what that decoder gives.
///
/// Every failure is one of reading, and it is that of an unsupported
/// format exactly where the first two bytes are not the magic number.
pub fn read_from_bytes(data: &[u8]) -> (res: Result<SolVariant, SolError>)
    ensures
        match parse_header(data@) {
            Err(e) => res is Err && res->Err_0 == e,
            Ok((header, n)) => if header.version == 0 {
                match parse_amf0_document(data@) {
                    Ok(sol) => res matches Ok(SolVariant::Amf0(read)) && read@ == sol,
                    Err(e) => res is Err && res->Err_0 == e,
                }
            } else {
                match amf3_parse_records(amf3_start(data@.skip(n as int)), header.len as nat) {
                    Ok(records) => res matches Ok(SolVariant::Amf3(read)) && read.len
                        == header.len && read.root_name@ == header.root_name && amf3_pairs_are(
                        read.root_object@,
                        records,
                    ),
                    Err(e) => res is Err && res->Err_0 == e,
                }
            },
        },
        res is Err ==> read_fault(res->Err_0),
        res is Err && res->Err_0 == SolError::UnsupportedFormat <==> data@.len() >= 2
            && data@.subrange(0, 2) != magic(),
{
    let mut reader = Reader::new(data);
    assert(reader.unread() =~= data@);
    proof {
        lemma_header_faults(data@);
    }
    let header = read_header(&mut reader)?;
    if header.version == 0 {
        proof {
            lemma_records_faults(reader.unread(), header.len as nat);
        }
        let root_object = read_amf0(&mut reader, header.len as u64)?;
        Ok(SolVariant::Amf0(Sol { len: header.len, root_name: header.root_name, root_object }))
    } else {
        let root_object = read_amf3(reader.rest(), header.len as u64)?;
        Ok(SolVariant::Amf3(Sol { len: header.len, root_name: header.root_name, root_object }))
    }
}

/// The length of a header: twenty-two bytes and the UTF-8 of the root
/// name.
pub proof fn lemma_header_len(len: u32, root_name: Seq<char>, version: u8)
    ensures
        header_bytes(len, root_name, version).len() == 22 + vstd::utf8::encode_utf8(
            root_name,
        ).len(),
{
    reveal(header_bytes);
    lemma_be_bytes_len(len as nat, 4);
    lemma_text_bytes_len(root_name);
}

/// A header with a root name that fits and with one of the two versions
/// reads back as what it states, whatever follows it.
pub proof fn lemma_header_reads_back(len: u32, root_name: Seq<char>, version: u8, tail: Seq<u8>)
    requires
        text_fits(root_name),
        version == 0 || version == 3,
    ensures
        parse_header(header_bytes(len, root_name, version) + tail) == Ok::<_, SolError>(
            (
                HeaderModel { len, root_name, version },
                header_bytes(len, root_name, version).len(),
            ),
        ),
{
    reveal(header_bytes);
    reveal(parse_header);
    let input = header_bytes(len, root_name, version) + tail;
    let after_len = type_marker() + tail_marker() + text_bytes(root_name) + version_block(version)
        + tail;
    let after_name = version_block(version) + tail;
    lemma_header_len(len, root_name, version);
    lemma_text_bytes_len(root_name);
    lemma_radix_pow_values();
    lemma_be_reads_back(len as nat, 4, after_len);
    lemma_text_reads_back(root_name, after_name);
    let n = text_bytes(root_name).len();
    assert(input.subrange(0, 2) =~= magic());
    assert(input.skip(2) =~= be_bytes(len as nat, 4) + after_len);
    assert(input.subrange(2, 6) =~= input.skip(2).take(4));
    assert(input.subrange(6, 10) =~= type_marker());
    assert(input.subrange(10, 16) =~= tail_marker());
    assert(input.skip(16) =~= text_bytes(root_name) + after_name);
    assert(input[16 + n + 3 as int] == version);
}

impl SolVariant {
    /// The whole document on the wire, or why it cannot be written.
    pub open spec fn file_bytes(&self) -> Result<Seq<u8>, SolError> {
        match self {
            SolVariant::Amf0(sol) => sol.file_bytes(),
            SolVariant::Amf3(sol) => sol.file_bytes(),
        }
    }

    /// Writes the document at the position of the writer, as
    /// [`Sol::write`] does for its version.
    pub fn write(&self, writer: &mut Writer) -> (res: Result<(), SolError>)
        ensures
            match self.file_bytes() {
                Ok(bytes) => res is Ok && final(writer).bytes() == overlay(
                    old(writer).bytes(),
                    old(writer).position(),
                    bytes,
                ) && final(writer).position() == old(writer).position() + 6,
                Err(e) => res == Err::<(), SolError>(e) && *final(writer) == *old(writer),
            },
    {
        match self {
            SolVariant::Amf0(sol) => sol.write(writer),
            SolVariant::Amf3(sol) => sol.write(writer),
        }
    }

    /// The document as the bytes of a file.
    pub fn to_bytes(&self) -> (res: Result<Vec<u8>, SolError>)
        ensures
            match self.file_bytes() {
                Ok(bytes) => res is Ok && res->Ok_0@ == bytes,
                Err(e) => res is Err && res->Err_0 == e,
            },
    {
        match self {
            SolVariant::Amf0(sol) => sol.to_bytes(),
            SolVariant::Amf3(sol) => sol.to_bytes(),
        }
    }
}

} // verus!
