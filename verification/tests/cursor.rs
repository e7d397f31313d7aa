use soledit::cursor::{Reader, Writer};
use soledit::text::{read_text, text_ok, write_text};
use soledit::SolError;

#[test]
fn reader_reads_big_endian_numbers() {
    let data = [0x01, 0x02, 0x03, 0x04, 0x05, 0x06, 0x07, 0x08, 0x09, 0x0A, 0x0B, 0x0C, 0x0D, 0x0E, 0x0F];
    let mut reader = Reader::new(&data);
    assert_eq!(reader.read_u8(), Ok(0x01));
    assert_eq!(reader.read_u16(), Ok(0x0203));
    assert_eq!(reader.read_u32(), Ok(0x0405_0607));
    assert_eq!(reader.read_u64(), Ok(0x0809_0A0B_0C0D_0E0F));
    assert_eq!(reader.offset(), 15);
    assert_eq!(reader.remaining(), 0);
}

#[test]
fn reader_fails_past_the_end_without_moving() {
    let data = [0xAA, 0xBB, 0xCC];
    let mut reader = Reader::new(&data);
    assert_eq!(reader.read_u32(), Err(SolError::UnexpectedEof));
    assert_eq!(reader.read_u64(), Err(SolError::UnexpectedEof));
    assert_eq!(reader.offset(), 0);
    assert_eq!(reader.read_u16(), Ok(0xAABB));
    assert_eq!(reader.read_u16(), Err(SolError::UnexpectedEof));
    assert_eq!(reader.offset(), 2);
    assert_eq!(reader.read_bytes(2).err(), Some(SolError::UnexpectedEof));
    assert_eq!(reader.read_bytes(1).unwrap(), &[0xCC]);
    assert_eq!(reader.read_u8(), Err(SolError::UnexpectedEof));
}

#[test]
fn reader_seeks_inside_its_source_only() {
    let data = [1, 2, 3, 4];
    let mut reader = Reader::new(&data);
    assert_eq!(reader.seek(4), Ok(()));
    assert_eq!(reader.remaining(), 0);
    assert_eq!(reader.seek(5), Err(SolError::UnexpectedEof));
    assert_eq!(reader.offset(), 4);
    assert_eq!(reader.seek(1), Ok(()));
    assert_eq!(reader.rest(), &[2, 3, 4]);
    assert_eq!(reader.read_u8(), Ok(2));
}

#[test]
fn writer_writes_big_endian_numbers() {
    let mut writer = Writer::new();
    writer.write_u8(0x01);
    writer.write_u16(0x0203);
    writer.write_u32(0x0405_0607);
    writer.write_u64(0x0809_0A0B_0C0D_0E0F);
    writer.write_all(&[0xFF, 0xFE]);
    assert_eq!(writer.offset(), 17);
    assert_eq!(writer.len(), 17);
    assert_eq!(
        writer.into_bytes(),
        vec![1, 2, 3, 4, 5, 6, 7, 8, 9, 10, 11, 12, 13, 14, 15, 0xFF, 0xFE]
    );
}

#[test]
fn writer_overwrites_a_placeholder_and_nothing_else() {
    let mut writer = Writer::new();
    writer.write_u8(0xAA);
    let at = writer.offset();
    writer.write_u32(0);
    writer.write_all(&[1, 2, 3]);
    assert_eq!(writer.seek(at), Ok(()));
    writer.write_u32(0xDEAD_BEEF);
    assert_eq!(writer.offset(), 5);
    assert_eq!(writer.len(), 8);
    assert_eq!(writer.into_bytes(), vec![0xAA, 0xDE, 0xAD, 0xBE, 0xEF, 1, 2, 3]);
}

#[test]
fn writer_grows_when_a_write_reaches_past_the_end() {
    let mut writer = Writer::new();
    writer.write_all(&[1, 2, 3]);
    assert_eq!(writer.seek(2), Ok(()));
    writer.write_u16(0x0A0B);
    assert_eq!(writer.into_bytes(), vec![1, 2, 0x0A, 0x0B]);
}

#[test]
fn writer_does_not_seek_past_the_end() {
    let mut writer = Writer::new();
    writer.write_all(&[1, 2]);
    assert_eq!(writer.seek(3), Err(SolError::UnexpectedEof));
    assert_eq!(writer.offset(), 2);
}

#[test]
fn text_is_length_prefixed_utf8() {
    let mut writer = Writer::new();
    write_text(&mut writer, "h\u{e9}");
    let bytes = writer.into_bytes();
    assert_eq!(bytes, vec![0, 3, b'h', 0xC3, 0xA9]);
    let mut reader = Reader::new(&bytes);
    assert_eq!(read_text(&mut reader), Ok("h\u{e9}".to_string()));
    assert_eq!(reader.remaining(), 0);
}

#[test]
fn text_that_is_not_utf8_is_refused() {
    let bytes = [0, 2, 0xC3, 0x28];
    let mut reader = Reader::new(&bytes);
    assert_eq!(read_text(&mut reader), Err(SolError::Utf8Decode));
}

#[test]
fn text_that_is_cut_short_is_refused() {
    let mut reader = Reader::new(&[0]);
    assert_eq!(read_text(&mut reader), Err(SolError::UnexpectedEof));
    let mut reader = Reader::new(&[0, 3, b'a', b'b']);
    assert_eq!(read_text(&mut reader), Err(SolError::UnexpectedEof));
}

#[test]
fn text_fits_up_to_65535_bytes() {
    assert!(text_ok(""));
    assert!(text_ok(&"a".repeat(65535)));
    assert!(!text_ok(&"a".repeat(65536)));
    assert!(!text_ok(&"\u{e9}".repeat(32768)));
}
