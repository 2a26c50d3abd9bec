//! Binary format detection and the records that parsers produce.

pub mod parser;

pub use parser::{
    BinaryFormat, BinaryInfo, BinaryParser, ExportInfo, ImportAddressInfo, ImportInfo,
    PeDataDirectoryInfo, SectionCharacteristics, SectionInfo,
};
