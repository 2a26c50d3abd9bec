use decompiler::binary::BinaryFormat;

#[test]
fn from_magic_returns_none_for_input_shorter_than_four_bytes() {
    // Format::from_magic must not index out of bounds on truncated inputs.
    assert!(BinaryFormat::from_magic(&[]).is_none());
    assert!(BinaryFormat::from_magic(&[0x7F]).is_none());
    assert!(BinaryFormat::from_magic(&[0x7F, b'E', b'L']).is_none());
}

#[test]
fn from_magic_returns_none_for_unknown_signature() {
    // A buffer that is neither MZ, ELF, nor any Mach-O magic should be rejected
    // rather than silently mis-detected.
    assert!(BinaryFormat::from_magic(&[0x00, 0x01, 0x02, 0x03, 0x04, 0x05]).is_none());
    assert!(BinaryFormat::from_magic(b"ZIPP\x00\x00").is_none());
}

#[test]
fn detects_macho_format_from_inline_deadbeef_bytes() {
    // Leading bytes of a 64-bit little-endian Mach-O image: magic, CPU type
    // x86_64, CPU subtype, MH_EXECUTE.
    let bytes: &[u8] = &[
        0xCF, 0xFA, 0xED, 0xFE, 0x07, 0x00, 0x00, 0x01, 0x03, 0x00, 0x00, 0x80, 0x02, 0x00,
        0x00, 0x00,
    ];

    // Sanity: first 4 bytes are the little-endian 64-bit Mach-O magic 0xFEEDFACF.
    assert_eq!(&bytes[..4], &[0xCF, 0xFA, 0xED, 0xFE]);

    let format =
        BinaryFormat::from_magic(bytes).expect("DEADBEEF bytes must sniff as a Mach-O image");
    assert_eq!(format, BinaryFormat::MachO);
}
