//! Compilation units ("ATs"): a named set of source files with an entry file and the
//! other units it depends on, and what the compiler records about each.
use crate::ir::irgen::StructLayout;
use crate::parse::parsing::{Expr, Parameter, Program, Stmt, Type};
use crate::utils::strmap::StrMap;
use indexmap::IndexMap;
use vstd::prelude::*;

verus! {

/// A compilation unit: its name and version, its root directory and entry file, its
/// files and dependencies, and what the compiler fills in about its contents. Paths are
/// held as text.
#[derive(Debug)]
pub struct ATInfo {
    pub name: String,
    pub version: Option<String>,
    pub root_dir: String,
    pub entry_file: String,
    pub files: Vec<ATFile>,
    pub dependencies: Vec<ATDependency>,
    pub struct_defs: StrMap<StructLayout>,
    pub struct_blueprints: StrMap<(Vec<String>, Vec<Parameter>)>,
    pub enum_defs: StrMap<IndexMap<String, i64>>,
    pub fn_blueprints: StrMap<Stmt>,
    pub analyser_constants: StrMap<(Type, Expr)>,
    pub exported: Vec<String>,
}

/// A compilation unit once parsed: its program and the names it imports.
pub struct ParsedAT {
    pub name: String,
    pub program: Program,
    pub imports: StrMap<ImportInfo>,
}

/// Where an imported name comes from: its qualified name, its unit and its kind.
pub struct ImportInfo {
    pub qualified_name: String,
    pub from_at: String,
    pub symbol_type: SymbolType,
}

/// The kind of a top-level name.
#[derive(Debug, Clone, Copy, PartialEq, Eq, Structural)]
pub enum SymbolType {
    Function,
    Struct,
    Enum,
    Constant,
}

/// A name that a unit exports: its bare name, its unit and its kind.
pub struct ExportInfo {
    pub bare_name: String,
    pub at_name: String,
    pub sym_type: SymbolType,
}

/// A source file of a unit and its module segments (`a`, `b` for `a/b.mysz`).
#[derive(Debug)]
pub struct ATFile {
    pub path: String,
    pub module_segments: Vec<String>,
}

/// A dependency of a unit: the unit's name and, perhaps, the versions accepted.
#[derive(Debug)]
pub struct ATDependency {
    pub name: String,
    pub version_req: Option<String>,
}

/// Which unit is compiled (its index in the list of units), and whether it is the one
/// under work.
pub struct ATEntry {
    pub info: usize,
    pub is_current: bool,
}

} // verus!
