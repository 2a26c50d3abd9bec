use decompiler::binary::parser::BinaryInfo;
use decompiler::binary::parser::BinaryFormat;

#[test]
fn detects_pe_from_mz_header() {
    assert_eq!(
        BinaryFormat::from_magic(&[0x4D, 0x5A, 0x90, 0x00]),
        Some(BinaryFormat::Pe)
    );
}

#[test]
fn detects_elf_from_magic() {
    assert_eq!(
        BinaryFormat::from_magic(&[0x7F, b'E', b'L', b'F', 0x02]),
        Some(BinaryFormat::Elf)
    );
}

#[test]
fn detects_macho_both_endians_and_fat() {
    // Little-endian 32-bit Mach-O (0xFEEDFACE LE in file)
    assert_eq!(
        BinaryFormat::from_magic(&[0xCE, 0xFA, 0xED, 0xFE]),
        Some(BinaryFormat::MachO)
    );
    // Little-endian 64-bit Mach-O (0xFEEDFACF LE in file)
    assert_eq!(
        BinaryFormat::from_magic(&[0xCF, 0xFA, 0xED, 0xFE]),
        Some(BinaryFormat::MachO)
    );
    // Fat / universal binary
    assert_eq!(
        BinaryFormat::from_magic(&[0xCA, 0xFE, 0xBA, 0xBE]),
        Some(BinaryFormat::MachO)
    );
}

#[test]
fn returns_none_for_garbage_and_tiny_input() {
    assert_eq!(BinaryFormat::from_magic(&[]), None);
    assert_eq!(BinaryFormat::from_magic(&[0x00]), None);
    assert_eq!(BinaryFormat::from_magic(&[0x00, 0x00, 0x00, 0x00]), None);
}

#[test]
fn format_names_stable() {
    assert_eq!(BinaryFormat::Pe.name(), "PE/EXE");
    assert_eq!(BinaryFormat::Elf.name(), "ELF");
    assert_eq!(BinaryFormat::MachO.name(), "Mach-O");
}

struct FlatImage;

impl BinaryInfo for FlatImage {
    fn format(&self) -> decompiler::binary::parser::BinaryFormat {
        decompiler::binary::parser::BinaryFormat::Elf
    }
    fn architecture(&self) -> &'static str {
        "x64"
    }
    fn entry_point(&self) -> u64 {
        0x1000
    }
    fn sections(&self) -> Vec<decompiler::binary::parser::SectionInfo> {
        Vec::new()
    }
    fn imports(&self) -> Vec<decompiler::binary::parser::ImportInfo> {
        Vec::new()
    }
    fn exports(&self) -> Vec<decompiler::binary::parser::ExportInfo> {
        Vec::new()
    }
}

#[test]
fn binary_info_defaults_have_no_import_addresses_or_data_directories() {
    let info = FlatImage;
    assert!(info.import_addresses().is_empty());
    assert!(info.pe_data_directories().is_empty());
}
