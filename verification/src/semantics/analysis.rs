//! The signatures that the semantic analyser records for structs, enums and functions.
use crate::parse::parsing::Type;
use crate::utils::location::Location;
use crate::utils::strmap::StrMap;
use indexmap::IndexMap;
use vstd::prelude::*;

verus! {

/// A variable known to the analyser, with its type.
#[derive(Debug)]
pub struct Symbol {
    pub name: String,
    pub ty: Type,
}

/// A scope of variables: the symbols declared in it and the scope that encloses it.
#[derive(Debug)]
pub struct Scope {
    pub symbols: StrMap<Symbol>,
    pub parent: Option<usize>,
}

/// The fields of a struct (in declaration order), its generic parameters and where it is defined.
#[derive(Debug)]
pub struct StructSignature {
    pub generic_params: Vec<String>,
    pub fields: IndexMap<String, Type>,
    pub location: Location,
}

/// The variants of an enum and where it is defined.
#[derive(Debug)]
pub struct EnumSignature {
    pub options: Vec<String>,
    pub location: Location,
}

/// What a call of a function must match: its generic parameters, its fixed parameter
/// types, whether it takes a variadic pack (and under which name), its return type.
#[derive(Debug)]
pub struct FunctionSignature {
    pub generic_params: Vec<String>,
    pub param_types: Vec<Type>,
    pub public: bool,
    pub is_variadic: bool,
    pub variadic_param_name: Option<String>,
    pub return_type: Type,
    pub location: Location,
}

} // verus!
