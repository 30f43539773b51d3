use kanban::{BinaryReader, BinaryWriter};

#[test]
fn test_write_byte() {
    let mut bw: BinaryWriter = BinaryWriter::new();
    bw.write_byte(0x01);
    assert_eq!(&[0x01], bw.as_bytes());
}

#[test]
fn test_write_bytes() {
    let mut bw: BinaryWriter = BinaryWriter::new();
    bw.write_bytes(&[0x01, 0x02, 0x03]);
    assert_eq!(&[0x01, 0x02, 0x03], bw.as_bytes());
}

#[test]
fn test_write_leb128() {
    // Test 0
    let mut bw: BinaryWriter = BinaryWriter::new();
    bw.write_leb128(0);
    assert_eq!(&[0x00], bw.as_bytes());

    // Test 127
    let mut bw: BinaryWriter = BinaryWriter::new();
    bw.write_leb128(127);
    assert_eq!(&[0x7F], bw.as_bytes());

    // Test 128
    let mut bw: BinaryWriter = BinaryWriter::new();
    bw.write_leb128(128);
    assert_eq!(&[0x80, 0x01], bw.as_bytes());

    // Test 300
    let mut bw: BinaryWriter = BinaryWriter::new();
    bw.write_leb128(300);
    assert_eq!(&[0xAC, 0x02], bw.as_bytes());

    // Test 16384
    let mut bw: BinaryWriter = BinaryWriter::new();
    bw.write_leb128(16384);
    assert_eq!(&[0x80, 0x80, 0x01], bw.as_bytes());
}

#[test]
fn test_write_string() {
    let mut bw: BinaryWriter = BinaryWriter::new();
    bw.write_string("Hello World!");
    let expected_bytes: &[u8] = &[
        0x48, 0x65, 0x6c, 0x6c, 0x6f, 0x20, 0x57, 0x6f, 0x72, 0x6c, 0x64, 0x21,
    ];
    assert_eq!(expected_bytes, bw.as_bytes());
}

#[test]
fn test_write_string_with_length() {
    let test_string: &str = "This is a very very very very very very very very very very very very very very very very very very very very very very very very very very very very very very very very test string";
    // Test 256 max
    let mut bw: BinaryWriter = BinaryWriter::new();
    bw.write_string_with_length(test_string, true);
    let mut expected_bytes: Vec<u8> = Vec::new();
    expected_bytes.push(0xB5);
    expected_bytes.extend_from_slice(test_string.as_bytes());
    assert_eq!(expected_bytes, bw.as_bytes());
    // Test leb128
    let mut bw: BinaryWriter = BinaryWriter::new();
    bw.write_string_with_length(test_string, false);
    let mut expected_bytes: Vec<u8> = Vec::new();
    expected_bytes.extend_from_slice(&[0xB5, 0x01]);
    expected_bytes.extend_from_slice(test_string.as_bytes());
    assert_eq!(expected_bytes, bw.as_bytes());
}

#[test]
fn test_as_bytes() {
    // Test Empty
    let bw = BinaryWriter { bytes: Vec::new() };
    assert_eq!(&Vec::<u8>::new(), bw.as_bytes());
    // Test with content
    let bw = BinaryWriter {
        bytes: [0x01, 0x02, 0x03].to_vec(),
    };
    assert_eq!(&[0x01, 0x02, 0x03], bw.as_bytes());
}

#[test]
fn short_string_over_255_bytes_keeps_whole_payload() {
    let text: String = "X".repeat(300);
    let mut bw = BinaryWriter::new();
    bw.write_string_with_length(&text, true);
    let bytes = bw.as_bytes();
    assert_eq!(301, bytes.len());
    assert_eq!(0xFF, bytes[0]);
    assert_eq!(text.as_bytes(), &bytes[1..]);
}

#[test]
fn short_string_of_255_bytes_is_exact() {
    let text: String = "Y".repeat(255);
    let mut bw = BinaryWriter::new();
    bw.write_string_with_length(&text, true);
    let mut br = BinaryReader::new(bw.as_bytes());
    assert_eq!(text, br.next_string_with_length(true).unwrap());
}

#[test]
fn varint_round_trips() {
    for v in [0u32, 1, 127, 128, 255, 300, 16383, 16384, 2097151, 2097152, 268435455, 268435456, u32::MAX] {
        let mut bw = BinaryWriter::new();
        bw.write_leb128(v);
        let bytes = bw.as_bytes().to_vec();
        let expected_len = if v == 0 { 1 } else { (32 - v.leading_zeros() as usize + 6) / 7 };
        assert_eq!(expected_len, bytes.len());
        assert!(bytes[bytes.len() - 1] < 0x80);
        let mut br = BinaryReader::new(&bytes);
        assert_eq!(v as usize, br.next_leb128_number().unwrap());
        assert_eq!(bytes.len(), br.address);
    }
}

#[test]
fn varint_of_largest_value() {
    let mut bw = BinaryWriter::new();
    bw.write_leb128(u32::MAX);
    assert_eq!(&[0xFF, 0xFF, 0xFF, 0xFF, 0x0F], bw.as_bytes());
}

#[test]
fn writes_append() {
    let mut bw = BinaryWriter::new();
    bw.write_byte(0x01);
    bw.write_string("ab");
    bw.write_string_with_length("", false);
    bw.write_string_with_length("", true);
    assert_eq!(&[0x01, 0x61, 0x62, 0x00, 0x00], bw.as_bytes());
}
