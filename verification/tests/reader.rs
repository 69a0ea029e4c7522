use downloader::{SeekTarget, SliceReader};
use std::io::{Read, Seek, SeekFrom};

#[test]
fn read_walks_the_slices_in_order() {
    let a: &[u8] = b"abc";
    let b: &[u8] = b"";
    let c: &[u8] = b"de";
    let slices = [a, b, c];
    let mut reader = SliceReader::new(&slices);
    let mut buf = [0u8; 2];
    assert_eq!(reader.read(&mut buf).unwrap(), 2);
    assert_eq!(&buf, b"ab");
    assert_eq!(reader.read(&mut buf).unwrap(), 1);
    assert_eq!(&buf, b"cb");
    assert_eq!(reader.read(&mut buf).unwrap(), 2);
    assert_eq!(&buf, b"de");
    assert_eq!(reader.read(&mut buf).unwrap(), 0);
}

#[test]
fn read_to_end_gives_the_concatenation() {
    let a: &[u8] = b"hello ";
    let b: &[u8] = b"wor";
    let c: &[u8] = b"ld";
    let slices = [a, b, c];
    let mut reader = SliceReader::new(&slices);
    let mut out = Vec::new();
    Read::read_to_end(&mut reader, &mut out).unwrap();
    assert_eq!(out, b"hello world");
}

#[test]
fn seek_from_start_end_and_current() {
    let a: &[u8] = b"0123";
    let b: &[u8] = b"4567";
    let slices = [a, b];
    let mut reader = SliceReader::new(&slices);
    assert_eq!(reader.seek_to(SeekTarget::Start(5)), Some(5));
    let mut buf = [0u8; 8];
    assert_eq!(reader.read(&mut buf).unwrap(), 3);
    assert_eq!(&buf[..3], b"567");
    assert_eq!(reader.seek_to(SeekTarget::End(-6)), Some(2));
    assert_eq!(reader.read(&mut buf).unwrap(), 2);
    assert_eq!(&buf[..2], b"23");
    assert_eq!(reader.seek_to(SeekTarget::Current(-3)), Some(1));
    assert_eq!(reader.seek_to(SeekTarget::Current(2)), Some(3));
    assert_eq!(reader.seek_to(SeekTarget::End(0)), Some(8));
    assert_eq!(reader.read(&mut buf).unwrap(), 0);
}

#[test]
fn seek_beyond_the_total_length_is_refused() {
    let a: &[u8] = b"0123";
    let slices = [a];
    let mut reader = SliceReader::new(&slices);
    assert_eq!(reader.seek_to(SeekTarget::Start(5)), None);
    assert_eq!(reader.seek_to(SeekTarget::End(1)), None);
    assert_eq!(reader.seek_to(SeekTarget::Current(-1)), None);
    let err = Seek::seek(&mut reader, SeekFrom::Start(9)).unwrap_err();
    assert_eq!(err.kind(), std::io::ErrorKind::InvalidInput);
    assert_eq!(Seek::seek(&mut reader, SeekFrom::Start(4)).unwrap(), 4);
}

#[test]
fn read_into_an_empty_buffer_leaves_the_reader_at_the_end() {
    let a: &[u8] = b"abc";
    let slices = [a];
    let mut reader = SliceReader::new(&slices);
    assert_eq!(reader.read(&mut []).unwrap(), 0);
    let mut buf = [0u8; 4];
    assert_eq!(reader.read(&mut buf).unwrap(), 0);
    assert_eq!(reader.seek_to(SeekTarget::Current(0)), Some(3));
}

#[test]
fn failed_seek_leaves_the_reader_at_the_start() {
    let a: &[u8] = b"abc";
    let b: &[u8] = b"def";
    let slices = [a, b];
    let mut reader = SliceReader::new(&slices);
    assert_eq!(reader.seek_to(SeekTarget::Start(4)), Some(4));
    assert_eq!(reader.seek_to(SeekTarget::Start(7)), None);
    assert_eq!(reader.seek_to(SeekTarget::Current(0)), Some(0));
}

#[test]
fn reader_without_slices_is_at_its_end() {
    let slices: [&[u8]; 0] = [];
    let mut reader = SliceReader::new(&slices);
    let mut buf = [0u8; 4];
    assert_eq!(reader.read(&mut buf).unwrap(), 0);
    assert_eq!(reader.seek_to(SeekTarget::End(0)), Some(0));
    assert_eq!(reader.seek_to(SeekTarget::Start(1)), None);
}

#[test]
fn empty_slice_between_two_others_is_skipped() {
    let a: &[u8] = b"ab";
    let b: &[u8] = b"";
    let c: &[u8] = b"cd";
    let slices = [a, b, c];
    let mut reader = SliceReader::new(&slices);
    let mut buf = [0u8; 4];
    assert_eq!(reader.read(&mut buf).unwrap(), 2);
    assert_eq!(&buf[..2], b"ab");
    assert_eq!(reader.read(&mut buf).unwrap(), 2);
    assert_eq!(&buf[..2], b"cd");
    assert_eq!(reader.read(&mut buf).unwrap(), 0);
}

#[test]
fn seek_through_the_trait_lands_where_it_names() {
    let a: &[u8] = b"0123";
    let b: &[u8] = b"4567";
    let slices = [a, b];
    let mut reader = SliceReader::new(&slices);
    assert_eq!(Seek::seek(&mut reader, SeekFrom::End(-3)).unwrap(), 5);
    assert_eq!(Seek::seek(&mut reader, SeekFrom::Current(2)).unwrap(), 7);
    assert_eq!(Seek::seek(&mut reader, SeekFrom::Start(8)).unwrap(), 8);
    let refused = Seek::seek(&mut reader, SeekFrom::Current(1)).unwrap_err();
    assert_eq!(refused.kind(), std::io::ErrorKind::InvalidInput);
    assert_eq!(Seek::seek(&mut reader, SeekFrom::Current(0)).unwrap(), 0);
}
