//! Verified core of a binary decompiler: instruction classification,
//! function detection, lifting, structuring and C generation.

pub mod analysis;
pub mod binary;
pub mod decompiler;
pub mod disasm;
pub mod text;
pub mod utils;
