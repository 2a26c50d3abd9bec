//! Decompilation passes.

pub mod ast;
pub mod branches;
pub mod c_generator;
pub mod c_syntax;
pub mod lifter;
pub mod optimization;
pub mod registers;
pub mod signatures;
pub mod structure;

pub use ast::{AstNode, AstNodeType, Expression, Function, Statement};
pub use c_syntax::{quote_c_string, sanitize_c_comment, sanitize_c_identifier, unique_c_identifier};
pub use c_generator::{CGenerator, CGeneratorConfig};
pub use lifter::{
    import_function_declarations, lift_function, lift_functions, lift_functions_with_imports,
    ImportFunctionDeclaration,
};
pub use optimization::{OptimizationLevel, Optimizer};
pub use signatures::recover_function_signatures;
pub use structure::{
    structure_function, structure_function_with_cfg, structure_function_with_cfg_checked,
    structure_functions, structure_functions_with_cfg,
};
