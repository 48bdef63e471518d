use tapevm::jit::CodeBuilder;

#[test]
fn new_builder_is_empty() {
    let builder = CodeBuilder::new();
    assert!(builder.bytes.is_empty());
}

#[test]
fn emit_bytes_appends_in_order() {
    let mut builder = CodeBuilder::new();
    builder.emit_bytes(&[0x89, 0xf8]);
    builder.emit_bytes(&[0x01, 0xf0]);
    builder.emit_bytes(&[0xd1, 0xe0]);
    builder.emit_bytes(&[0xc3]);
    assert_eq!(builder.bytes, vec![0x89, 0xf8, 0x01, 0xf0, 0xd1, 0xe0, 0xc3]);
}

#[test]
fn emit_u32_is_little_endian() {
    let mut builder = CodeBuilder::new();
    builder.emit_u32(0x12345678);
    assert_eq!(builder.bytes, vec![0x78, 0x56, 0x34, 0x12]);

    let mut builder = CodeBuilder::new();
    builder.emit_u32(0);
    builder.emit_u32(u32::MAX);
    assert_eq!(builder.bytes, vec![0, 0, 0, 0, 0xff, 0xff, 0xff, 0xff]);
}

#[test]
fn emit_u32_matches_std_encoding() {
    let val: u32 = 0xdeadbeef;
    let mut builder = CodeBuilder::new();
    builder.emit_u32(val);
    assert_eq!(builder.bytes, val.to_le_bytes().to_vec());
}
