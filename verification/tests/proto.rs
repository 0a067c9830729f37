use shaman_core::proto::{
    read_frame, read_header, write_frame, ByteReader, MAX_FRAME, TAG_DATA, TAG_EXIT, TAG_OPEN,
};

#[test]
fn round_trips_a_raw_frame() {
    let mut buf = Vec::new();
    write_frame(&mut buf, TAG_DATA, 42, b"hello");

    let frame = read_frame(&mut ByteReader::new(buf)).unwrap().unwrap();
    assert_eq!(frame.tag, TAG_DATA);
    assert_eq!(frame.id, 42);
    assert_eq!(frame.payload, b"hello");
}

#[test]
fn reads_several_frames_back_to_back() {
    let mut buf = Vec::new();
    write_frame(&mut buf, TAG_DATA, 1, b"a");
    write_frame(&mut buf, TAG_DATA, 2, b"bb");
    write_frame(&mut buf, TAG_EXIT, 1, b"");

    let mut reader = ByteReader::new(buf);
    let mut seen = Vec::new();
    while let Some(f) = read_frame(&mut reader).unwrap() {
        seen.push((f.tag, f.id, f.payload.len()));
    }
    assert_eq!(seen, vec![(TAG_DATA, 1, 1), (TAG_DATA, 2, 2), (TAG_EXIT, 1, 0)]);
}

#[test]
fn clean_eof_is_not_an_error() {
    assert!(read_frame(&mut ByteReader::new(Vec::new())).unwrap().is_none());
}

#[test]
fn rejects_an_absurd_length_instead_of_allocating() {
    let mut header = [0u8; 13];
    header[0] = TAG_DATA;
    header[9..13].copy_from_slice(&u32::MAX.to_le_bytes());

    let err = read_frame(&mut ByteReader::new(header.to_vec())).unwrap_err();
    let text = err.message();
    assert!(text.contains("desynchronised"), "got: {text}");
}

#[test]
fn the_header_is_tag_then_little_endian_id_and_length() {
    let mut buf = Vec::new();
    write_frame(&mut buf, TAG_OPEN, 0x0102030405060708, b"xyz");
    assert_eq!(
        buf,
        vec![1, 8, 7, 6, 5, 4, 3, 2, 1, 3, 0, 0, 0, b'x', b'y', b'z']
    );
}

#[test]
fn the_limit_is_named_in_the_error() {
    let mut header = [0u8; 13];
    header[9..13].copy_from_slice(&((MAX_FRAME as u32) + 1).to_le_bytes());
    let err = read_header(&header).unwrap_err();
    assert_eq!(
        err.message(),
        "frame of 8388609 bytes exceeds the 8388608 limit; stream is probably desynchronised"
    );
}

#[test]
fn a_frame_exactly_at_the_limit_is_accepted() {
    let mut header = [0u8; 13];
    header[0] = 7;
    header[1] = 9;
    header[9..13].copy_from_slice(&(MAX_FRAME as u32).to_le_bytes());
    let h = read_header(&header).unwrap();
    assert_eq!((h.tag, h.id, h.len), (7, 9, MAX_FRAME));
}

#[test]
fn a_stream_that_ends_inside_a_payload_is_an_error() {
    let mut buf = Vec::new();
    write_frame(&mut buf, TAG_DATA, 5, b"hello");
    buf.truncate(buf.len() - 2);
    let mut reader = ByteReader::new(buf);
    let err = read_frame(&mut reader).unwrap_err();
    assert_eq!(err.message(), "failed to fill whole buffer");
    assert_eq!(reader.remaining_len(), 0);
}

#[test]
fn a_partial_header_is_a_clean_end() {
    let mut reader = ByteReader::new(vec![10, 0, 0]);
    assert!(read_frame(&mut reader).unwrap().is_none());
    assert_eq!(reader.remaining_len(), 0);
}
