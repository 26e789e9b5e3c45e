use livescore::packet::{PacketReader, PacketWriter};

#[test]
fn writer_accumulates_bytes_in_order() {
    let mut writer = PacketWriter::new();
    writer.write_u8(1);
    writer.write(0x0203u16);
    writer.write_all(vec![9, 8]);
    assert_eq!(writer.get(), vec![1, 3, 2, 9, 8]);
}

#[test]
fn primitives_round_trip_through_reader() {
    let mut writer = PacketWriter::new();
    writer.write(true);
    writer.write(false);
    writer.write(-7i8);
    writer.write(0xabcdu16);
    writer.write(0xdeadbeefu32);
    writer.write(u64::MAX);
    writer.write(42usize);
    let bytes = writer.get();

    let mut reader = PacketReader::new(bytes);
    assert_eq!(reader.read::<bool>(), Some(true));
    assert_eq!(reader.read::<bool>(), Some(false));
    assert_eq!(reader.read::<i8>(), Some(-7));
    assert_eq!(reader.read::<u16>(), Some(0xabcd));
    assert_eq!(reader.read::<u32>(), Some(0xdeadbeef));
    assert_eq!(reader.read::<u64>(), Some(u64::MAX));
    assert_eq!(reader.read::<usize>(), Some(42));
    assert!(!reader.has_next());
    assert_eq!(reader.read::<u8>(), None);
}

#[test]
fn integers_are_little_endian() {
    let mut writer = PacketWriter::new();
    writer.write(0x0102u16);
    assert_eq!(writer.get(), vec![0x02, 0x01]);

    let mut writer = PacketWriter::new();
    writer.write(1u64);
    assert_eq!(writer.get(), vec![1, 0, 0, 0, 0, 0, 0, 0]);
}

#[test]
fn bool_decodes_any_nonzero_byte_as_true() {
    let mut reader = PacketReader::new(vec![0, 1, 7]);
    assert_eq!(reader.read::<bool>(), Some(false));
    assert_eq!(reader.read::<bool>(), Some(true));
    assert_eq!(reader.read::<bool>(), Some(true));
}

#[test]
fn string_round_trips_with_length_prefix() {
    let mut writer = PacketWriter::new();
    writer.write(String::from("héllo, wörld"));
    let bytes = writer.get();
    // 8-byte length prefix, then the UTF-8 bytes (two 2-byte characters).
    assert_eq!(bytes.len(), 8 + 14);
    assert_eq!(bytes[0], 14);

    let mut reader = PacketReader::new(bytes);
    assert_eq!(reader.read::<String>(), Some(String::from("héllo, wörld")));
    assert!(!reader.has_next());
}

#[test]
fn empty_string_round_trips() {
    let mut writer = PacketWriter::new();
    writer.write(String::new());
    let bytes = writer.get();
    assert_eq!(bytes, vec![0; 8]);
    let mut reader = PacketReader::new(bytes);
    assert_eq!(reader.read::<String>(), Some(String::new()));
}

#[test]
fn string_ending_exactly_at_buffer_end_decodes() {
    let mut bytes = vec![2, 0, 0, 0, 0, 0, 0, 0];
    bytes.extend_from_slice(b"ok");
    let mut reader = PacketReader::new(bytes);
    assert_eq!(reader.read::<String>(), Some(String::from("ok")));
    assert!(!reader.has_next());
}

#[test]
fn string_with_oversized_declared_length_fails() {
    // Declared length 200, but only 3 bytes follow.
    let mut bytes = vec![200, 0, 0, 0, 0, 0, 0, 0];
    bytes.extend_from_slice(b"abc");
    let mut reader = PacketReader::new(bytes);
    assert_eq!(reader.read::<String>(), None);
}

#[test]
fn string_with_invalid_utf8_fails() {
    let mut bytes = vec![2, 0, 0, 0, 0, 0, 0, 0];
    bytes.extend_from_slice(&[0xff, 0xfe]);
    let mut reader = PacketReader::new(bytes);
    assert_eq!(reader.read::<String>(), None);
}

#[test]
fn truncated_primitives_fail_cleanly() {
    for len in 0..8 {
        let mut reader = PacketReader::new(vec![0xaa; len]);
        assert_eq!(reader.read::<u64>(), None);
    }
    for len in 0..2 {
        let mut reader = PacketReader::new(vec![0xaa; len]);
        assert_eq!(reader.read::<u16>(), None);
    }
    let mut reader = PacketReader::new(Vec::new());
    assert_eq!(reader.read::<u8>(), None);
    assert_eq!(reader.read::<bool>(), None);
    assert_eq!(reader.read::<i8>(), None);
}

#[test]
fn read_n_slice_takes_exactly_n_bytes() {
    let mut reader = PacketReader::new(vec![1, 2, 3, 4]);
    assert_eq!(reader.read_n_slice(3), Some(vec![1, 2, 3]));
    assert_eq!(reader.read_n_slice(2), None);
    assert_eq!(reader.read_n_slice(1), Some(vec![4]));
    assert!(!reader.has_next());
}
