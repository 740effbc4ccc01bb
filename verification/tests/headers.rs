use nbt_raw::{
    close_nbt, emit_next_header, read_bare_int, write_bare_byte, write_bare_int,
    write_bare_string, Error, SliceSource,
};

#[test]
fn tag_three_named_x_is_four_bytes() {
    let mut out: Vec<u8> = Vec::new();
    write_bare_byte(&mut out, 0x03).unwrap();
    write_bare_string(&mut out, "x").unwrap();
    assert_eq!(out, vec![0x03, 0x01, 0x00, 0x78]);
    let mut src = SliceSource::new(&out);
    assert_eq!(emit_next_header(&mut src).unwrap(), (0x03, "x".to_string()));
    assert_eq!(src.remaining(), 0);
}

#[test]
fn close_writes_one_zero_byte() {
    let mut out: Vec<u8> = vec![0x07];
    close_nbt(&mut out).unwrap();
    assert_eq!(out, vec![0x07, 0x00]);
}

#[test]
fn end_tag_has_the_empty_name_and_takes_one_byte() {
    let mut out: Vec<u8> = Vec::new();
    close_nbt(&mut out).unwrap();
    write_bare_string(&mut out, "not a name").unwrap();
    let mut src = SliceSource::new(&out);
    assert_eq!(emit_next_header(&mut src).unwrap(), (0x00, String::new()));
    assert_eq!(src.remaining(), out.len() - 1);
}

#[test]
fn end_tag_alone_is_a_whole_header() {
    let bytes = [0x00u8];
    let mut src = SliceSource::new(&bytes);
    assert_eq!(emit_next_header(&mut src).unwrap(), (0x00, String::new()));
    assert_eq!(src.remaining(), 0);
}

#[test]
fn header_round_trip() {
    for (tag, name) in [(1u8, ""), (3, "x"), (10, "Level"), (255, "h\u{e9}\u{20ac}"), (0x80, "a b")] {
        let mut out: Vec<u8> = Vec::new();
        write_bare_byte(&mut out, tag as i8).unwrap();
        write_bare_string(&mut out, name).unwrap();
        write_bare_int(&mut out, 99).unwrap();
        let mut src = SliceSource::new(&out);
        assert_eq!(emit_next_header(&mut src).unwrap(), (tag, name.to_string()));
        assert_eq!(read_bare_int(&mut src).unwrap(), 99);
    }
}

#[test]
fn headers_follow_one_another() {
    let bytes = [0x01u8, 0x01, 0x00, 0x61, 0x02, 0x02, 0x00, 0x62, 0x63, 0x00];
    let mut src = SliceSource::new(&bytes);
    assert_eq!(emit_next_header(&mut src).unwrap(), (1, "a".to_string()));
    assert_eq!(emit_next_header(&mut src).unwrap(), (2, "bc".to_string()));
    assert_eq!(emit_next_header(&mut src).unwrap(), (0, String::new()));
    assert!(matches!(emit_next_header(&mut src), Err(Error::IncompleteNbtValue)));
}

#[test]
fn header_of_nothing_is_incomplete() {
    let bytes: [u8; 0] = [];
    let mut src = SliceSource::new(&bytes);
    assert!(matches!(emit_next_header(&mut src), Err(Error::IncompleteNbtValue)));
}

#[test]
fn header_without_its_name_is_incomplete() {
    let bytes = [0x08u8];
    assert!(matches!(
        emit_next_header(&mut SliceSource::new(&bytes)),
        Err(Error::IncompleteNbtValue)
    ));
    let cut = [0x08u8, 0x04, 0x00, 0x6E, 0x61];
    assert!(matches!(
        emit_next_header(&mut SliceSource::new(&cut)),
        Err(Error::IncompleteNbtValue)
    ));
}

#[test]
fn header_with_a_name_that_is_not_utf8_is_invalid() {
    let bytes = [0x08u8, 0x02, 0x00, 0xC3, 0x28];
    match emit_next_header(&mut SliceSource::new(&bytes)) {
        Err(Error::InvalidUtf8(kept)) => assert_eq!(kept, vec![0xC3, 0x28]),
        other => panic!("not invalid text: {:?}", other),
    }
}
