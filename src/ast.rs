use vstd::prelude::*;

verus! {

/// One specifier of an import statement.
#[derive(Debug, PartialEq, Eq)]
pub enum Specifier {
    /// `import local from "..."`
    Default(String),
    /// `import { imported as local } from "..."`; `imported` is absent when it equals `local`.
    Named { local: String, imported: Option<String> },
    /// `import * as local from "..."`
    Namespace(String),
}

/// An import statement: its specifiers and its source string.
#[derive(Debug, PartialEq, Eq)]
pub struct ImportDecl {
    pub specifiers: Vec<Specifier>,
    pub src: String,
}

/// One `key: value` property of a generated object, the value being an identifier.
#[derive(Debug, PartialEq, Eq)]
pub struct KeyValue {
    pub key: String,
    pub value: String,
}

/// `const name = { key: value, ... };`
#[derive(Debug, PartialEq, Eq)]
pub struct ObjectConst {
    pub name: String,
    pub props: Vec<KeyValue>,
}

/// A top-level item of a module.
#[derive(Debug, PartialEq, Eq)]
pub enum ModuleItem {
    Import(ImportDecl),
    Const(ObjectConst),
    /// Any other statement, known only by the handle its owner gave it.
    Other(usize),
}

/// Why a module could not be transformed.
#[derive(Debug, PartialEq, Eq, Clone, Copy)]
pub enum TransformError {
    /// A wildcard import does not have exactly one default specifier.
    UnsupportedSpecifier,
    /// Glob refuses the search pattern, or an entry found could not be read or its path
    /// is not UTF-8.
    Filesystem,
    /// The capture expression of a pattern does not compile, or a path found for the
    /// pattern is not under the importing directory or is not matched by that expression.
    InternalConsistency,
    /// The counter of generated bindings reached its largest value.
    CounterExhausted,
}

/// The local name of an import that has exactly one specifier, a default one.
pub open spec fn default_binding(d: ImportDecl) -> Option<Seq<char>> {
    if d.specifiers@.len() == 1 {
        match d.specifiers@[0] {
            Specifier::Default(l) => Some(l@),
            _ => None,
        }
    } else {
        None
    }
}

} // verus!
