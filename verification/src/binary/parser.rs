//! Binary format detection and parsed-binary records.
//!
//! Formats are recognized from their magic bytes only. The library has no
//! ELF, PE or Mach-O parser and reads no files: the `BinaryInfo` and
//! `BinaryParser` traits describe what a parser provides, and the library's
//! passes take the records (sections, imports, exports) as values.

use crate::utils::error::Result;
use vstd::prelude::*;

verus! {

/// Supported binary formats
#[derive(Debug, Clone, Copy, PartialEq, Eq, Structural)]
pub enum BinaryFormat {
    /// PE/EXE (Windows)
    Pe,
    /// ELF (Linux)
    Elf,
    /// Mach-O (macOS)
    MachO,
}

/// The little-endian value of the first four bytes.
pub open spec fn le_u32(b: Seq<u8>) -> int {
    b[0] as int + b[1] as int * 0x100 + b[2] as int * 0x10000 + b[3] as int * 0x1000000
}

/// The format that a file's leading magic bytes announce.
pub open spec fn format_of_magic(b: Seq<u8>) -> Option<BinaryFormat> {
    if b.len() < 2 {
        None
    } else if b[0] == 0x4D && b[1] == 0x5A {
        Some(BinaryFormat::Pe)
    } else if b.len() >= 4 && b[0] == 0x7F && b[1] == 0x45 && b[2] == 0x4C && b[3] == 0x46 {
        Some(BinaryFormat::Elf)
    } else if b.len() >= 4 && (le_u32(b) == 0xFEEDFACE || le_u32(b) == 0xCEFAEDFE || le_u32(b)
        == 0xFEEDFACF || le_u32(b) == 0xCFFAEDFE || le_u32(b) == 0xBEBAFECA) {
        Some(BinaryFormat::MachO)
    } else {
        None
    }
}

pub open spec fn format_name(f: BinaryFormat) -> Seq<char> {
    match f {
        BinaryFormat::Pe => "PE/EXE"@,
        BinaryFormat::Elf => "ELF"@,
        BinaryFormat::MachO => "Mach-O"@,
    }
}

impl BinaryFormat {
    /// Detect binary format from magic bytes
    pub fn from_magic(bytes: &[u8]) -> (r: Option<Self>)
        ensures
            r == format_of_magic(bytes@),
    {
        if bytes.len() < 2 {
            return None;
        }
        // PE/EXE: MZ header
        if bytes[0] == 0x4D && bytes[1] == 0x5A {
            return Some(BinaryFormat::Pe);
        }
        // ELF: 0x7F 'E' 'L' 'F'
        if bytes.len() >= 4 && bytes[0] == 0x7F && bytes[1] == 0x45 && bytes[2] == 0x4C && bytes[3]
            == 0x46 {
            return Some(BinaryFormat::Elf);
        }
        // Mach-O: 32-bit FEEDFACE / CEFAEDFE, 64-bit FEEDFACF / CFFAEDFE, fat CAFEBABE
        if bytes.len() >= 4 {
            let magic: u32 = (bytes[0] as u32) + (bytes[1] as u32) * 0x100 + (bytes[2] as u32)
                * 0x10000 + (bytes[3] as u32) * 0x1000000;
            if magic == 0xFEEDFACE || magic == 0xCEFAEDFE || magic == 0xFEEDFACF || magic
                == 0xCFFAEDFE || magic == 0xBEBAFECA {
                return Some(BinaryFormat::MachO);
            }
        }
        None
    }

    /// Get format name
    pub fn name(&self) -> (r: &'static str)
        ensures
            r@ == format_name(*self),
    {
        match self {
            BinaryFormat::Pe => "PE/EXE",
            BinaryFormat::Elf => "ELF",
            BinaryFormat::MachO => "Mach-O",
        }
    }
}

/// Section characteristics
#[derive(Debug, Clone, Copy, Default)]
pub struct SectionCharacteristics {
    pub is_code: bool,
    pub is_data: bool,
    pub is_readable: bool,
    pub is_writable: bool,
    pub is_executable: bool,
}

/// Section information
#[derive(Debug, Clone)]
pub struct SectionInfo {
    pub name: String,
    pub virtual_address: u64,
    pub size: u64,
    pub raw_data: Vec<u8>,
    pub characteristics: SectionCharacteristics,
}

/// Import information
#[derive(Debug, Clone)]
pub struct ImportInfo {
    pub name: String,
    pub functions: Vec<String>,
}

/// Import address table/thunk entry.
#[derive(Debug, Clone)]
pub struct ImportAddressInfo {
    pub library: String,
    pub function: String,
    pub address: u64,
    pub ordinal: Option<u16>,
}

/// PE optional-header data directory entry.
#[derive(Debug, Clone)]
pub struct PeDataDirectoryInfo {
    pub name: String,
    pub virtual_address: u64,
    pub size: u64,
    pub section: Option<String>,
}

/// Export information
#[derive(Debug, Clone)]
pub struct ExportInfo {
    pub name: String,
    pub address: u64,
    pub ordinal: Option<u16>,
}

/// Binary information, as a format parser exposes it.
pub trait BinaryInfo {
    /// Get the format
    fn format(&self) -> BinaryFormat;

    /// Get the architecture
    fn architecture(&self) -> &'static str;

    /// Get entry point address
    fn entry_point(&self) -> u64;

    /// Get sections
    fn sections(&self) -> Vec<SectionInfo>;

    /// Get imports
    fn imports(&self) -> Vec<ImportInfo>;

    /// Get import address table entries when the format exposes them; by
    /// default there are none.
    fn import_addresses(&self) -> (r: Vec<ImportAddressInfo>)
        default_ensures
            r@.len() == 0,
    {
        Vec::new()
    }

    /// Get PE data directory entries when the format exposes them; by
    /// default there are none.
    fn pe_data_directories(&self) -> (r: Vec<PeDataDirectoryInfo>)
        default_ensures
            r@.len() == 0,
    {
        Vec::new()
    }

    /// Get exports
    fn exports(&self) -> Vec<ExportInfo>;
}

/// Binary parser: reads bytes of one format into binary information.
pub trait BinaryParser {
    /// The information type this parser produces.
    type Info: BinaryInfo;

    /// Parse binary from bytes
    fn parse(&self, data: &[u8]) -> Result<Self::Info>;

    /// Get the format this parser handles
    fn format(&self) -> BinaryFormat;
}

} // verus!
