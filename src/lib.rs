pub mod ast;
pub mod ident;
pub mod laws;
pub mod paths;
pub mod pattern;
pub mod sanitize;
pub mod transform;

pub use ast::{ImportDecl, KeyValue, ModuleItem, ObjectConst, Specifier, TransformError};
pub use transform::{glob_importer, GlobImporter};
