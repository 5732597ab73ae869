//! What the object-code back end decides before it calls its code generator: the machine
//! type of each source type and operand, how a function returns a value of a type, the
//! names functions are declared under, and the data symbols of string literals.
//! The code generation itself (the Cranelift back end's function compilation and the
//! LLVM back end) is not here: it is a sequence of calls into cranelift and inkwell,
//! which this crate does not depend on.
use crate::ir::irgen::StructLayout;
use crate::ir::tac::{Instruction, InstructionV, ScopedMap, Value, ValueV};
use crate::parse::parsing::{Type, TypeV};
use crate::utils::strmap::StrMap;
use crate::utils::text::{chars_of, concat, dec, str_eq, string_from_chars, usize_to_string};
use vstd::prelude::*;
use vstd::string::*;

verus! {

/// A machine type of the back end.
#[derive(Debug, Clone, Copy, PartialEq, Eq, Structural)]
pub enum BackendType {
    Int8,
    Int32,
    Int64,
    UInt8,
    UInt32,
    UInt64,
    Char,
    Bool,
    Ptr,
}

/// The size in bytes of a machine type.
pub open spec fn byte_size_v(t: BackendType) -> u32 {
    match t {
        BackendType::Char | BackendType::Bool | BackendType::Int8 | BackendType::UInt8 => 1,
        BackendType::Int32 | BackendType::UInt32 => 4,
        BackendType::Int64 | BackendType::UInt64 | BackendType::Ptr => 8,
    }
}

/// Whether a source type has a machine type: every type but generic ones (which are
/// instantiated before code generation), packs, floating-point numbers, enums and `nil`.
pub open spec fn has_backend_type(t: TypeV) -> bool {
    match t {
        TypeV::GenericInstance { .. } | TypeV::GenericParam(_) | TypeV::VariadicPack { .. } | TypeV::Float
        | TypeV::Double | TypeV::Enum(_) | TypeV::Nil => false,
        _ => true,
    }
}

/// The machine type of a source type: pointers for strings, `any`, pointers, structs and
/// arrays; 64-bit integers for `int` (and `void`), unsigned ones for `uint`, bytes for
/// `int8` and `uint8`.
pub open spec fn backend_type_v(t: TypeV) -> BackendType {
    match t {
        TypeV::Int => BackendType::Int64,
        TypeV::Int8 => BackendType::Int8,
        TypeV::UInt8 => BackendType::UInt8,
        TypeV::UInt => BackendType::UInt64,
        TypeV::Char => BackendType::Char,
        TypeV::Bool => BackendType::Bool,
        TypeV::Void => BackendType::Int64,
        _ => BackendType::Ptr,
    }
}

impl BackendType {
    /// The size in bytes of this machine type.
    pub fn byte_size(&self) -> (res: u32)
        ensures
            res == byte_size_v(*self),
    {
        match self {
            BackendType::Char => 1,
            BackendType::Bool => 1,
            BackendType::Int8 | BackendType::UInt8 => 1,
            BackendType::Int32 | BackendType::UInt32 => 4,
            BackendType::Int64 | BackendType::UInt64 => 8,
            BackendType::Ptr => 8,
        }
    }

    /// The machine type of a source type that has one.
    pub fn from_frontend(ty: &Type) -> (res: Self)
        requires
            has_backend_type(ty@),
        ensures
            res == backend_type_v(ty@),
    {
        match ty {
            Type::Str => BackendType::Ptr,
            Type::Any => BackendType::Ptr,
            Type::Int => BackendType::Int64,
            Type::Int8 => BackendType::Int8,
            Type::UInt8 => BackendType::UInt8,
            Type::UInt => BackendType::UInt64,
            Type::Char => BackendType::Char,
            Type::Bool => BackendType::Bool,
            Type::Ptr(_) => BackendType::Ptr,
            Type::Struct(_) => BackendType::Ptr,
            Type::Void => BackendType::Int64,
            Type::Array { .. } => BackendType::Ptr,
            _ => {
                proof {
                    assert(false);
                }
                BackendType::Ptr
            },
        }
    }
}

/// The part of `s` before the first `__` of it, then before the first `<` of that: the
/// name a mangled function is declared under.
pub open spec fn strip_mangling_v(s: Seq<char>) -> Seq<char> {
    let a = before_separator(s, 0);
    before_char(a, '<', 0)
}

/// The part of `s` from `i` on before the first `__` there.
pub open spec fn before_separator(s: Seq<char>, i: int) -> Seq<char>
    decreases s.len() - i,
{
    if i >= s.len() || (s[i] == '_' && i + 1 < s.len() && s[i + 1] == '_') {
        s.subrange(0, if i <= s.len() { i } else { s.len() as int })
    } else {
        before_separator(s, i + 1)
    }
}

/// The part of `s` before the first `c` from `i` on.
pub open spec fn before_char(s: Seq<char>, c: char, i: int) -> Seq<char>
    decreases s.len() - i,
{
    if i >= s.len() || s[i] == c {
        s.subrange(0, if i <= s.len() { i } else { s.len() as int })
    } else {
        before_char(s, c, i + 1)
    }
}

/// The name a mangled function is declared under.
pub fn strip_mangling(name: &str) -> (res: String)
    ensures
        res@ == strip_mangling_v(name@),
{
    let cs = chars_of(name);
    let mut i: usize = 0;
    while i < cs.len() && !(cs[i] == '_' && i + 1 < cs.len() && cs[i + 1] == '_')
        invariant
            0 <= i <= cs@.len(),
            cs@ == name@,
            before_separator(name@, 0) == before_separator(name@, i as int),
        decreases cs.len() - i,
    {
        i = i + 1;
    }
    let mut first: Vec<char> = Vec::new();
    let mut k: usize = 0;
    while k < i
        invariant
            0 <= k <= i <= cs@.len(),
            first@ == cs@.subrange(0, k as int),
        decreases i - k,
    {
        first.push(cs[k]);
        k = k + 1;
    }
    let ghost a = before_separator(name@, 0);
    assert(a == first@);
    let mut j: usize = 0;
    while j < first.len() && first[j] != '<'
        invariant
            0 <= j <= first@.len(),
            before_char(a, '<', 0) == before_char(a, '<', j as int),
            a == first@,
        decreases first.len() - j,
    {
        j = j + 1;
    }
    let mut out: Vec<char> = Vec::new();
    let mut k: usize = 0;
    while k < j
        invariant
            0 <= k <= j <= first@.len(),
            out@ == first@.subrange(0, k as int),
        decreases j - k,
    {
        out.push(first[k]);
        k = k + 1;
    }
    string_from_chars(&out)
}

/// The machine type of an operand: a named operand's recorded type (64-bit integers when
/// it has none), or the constant's own. A named operand must be recorded with a type that
/// has a machine type (generic types are instantiated before code is generated), and the
/// operand is no floating-point or `nil` constant: the code generator has no case for
/// those.
pub fn value_backend_type(value: &Value, var_types: &ScopedMap) -> (res: BackendType)
    requires
        var_types.wf(),
        value.view() matches ValueV::Var(n) ==> (var_types.lookup(n) matches Some(t) ==> has_backend_type(t)),
        value.view() matches ValueV::Temp(n) ==> (var_types.lookup(n) matches Some(t) ==> has_backend_type(t)),
        !(value.view() is Double || value.view() is Float || value.view() is Nil),
    ensures
        match value.view() {
            ValueV::Char(_) => res == BackendType::Char,
            ValueV::Const(_) | ValueV::Void => res == BackendType::Int64,
            ValueV::Bool(_) => res == BackendType::Bool,
            ValueV::Str(_) => res == BackendType::Ptr,
            ValueV::Var(n) | ValueV::Temp(n) => match var_types.lookup(n) {
                Some(t) => res == backend_type_v(t),
                None => res == BackendType::Int64,
            },
            _ => false,
        },
{
    match value {
        Value::Var(name) | Value::Temp(name) => match var_types.get(name.as_str()) {
            Some(t) => BackendType::from_frontend(t),
            None => BackendType::Int64,
        },
        Value::Char(_) => BackendType::Char,
        Value::Const(_) => BackendType::Int64,
        Value::Bool(_) => BackendType::Bool,
        Value::Str(_) => BackendType::Ptr,
        Value::Void => BackendType::Int64,
        _ => {
            proof {
                assert(false);
            }
            BackendType::Int64
        },
    }
}

/// How a function returns a value of a type: nothing, one machine value, or a struct in
/// as many 8-byte chunks as its size takes.
#[derive(Debug, PartialEq, Eq)]
pub enum AbiType {
    Void,
    Primitive(BackendType),
    Aggregate { chunk_count: usize, total_size: u32 },
}

/// How a function returns a value of type `ty`, `struct_defs` giving the layouts of
/// structs (looked up by name, by the name without mangling, or by the last `::` segment
/// of either): `None` for a struct too large to return this way.
pub fn abi_type(ty: &Type, struct_defs: &StrMap<StructLayout>) -> (res: Option<AbiType>)
    requires
        struct_defs.wf(),
        !(ty@ is Struct) ==> has_backend_type(ty@) || ty@ is Void,
    ensures
        ty@ is Void ==> res == Some(AbiType::Void),
        !(ty@ is Struct) && !(ty@ is Void) ==> res == Some(AbiType::Primitive(backend_type_v(ty@))),
        res matches Some(AbiType::Aggregate { chunk_count, total_size }) ==> chunk_count == (total_size as int + 7) / 8,
{
    match ty {
        Type::Void => Some(AbiType::Void),
        Type::Struct(name) => {
            let stripped = strip_mangling(name.as_str());
            let layout = match struct_defs.get(name.as_str()) {
                Some(l) => Some(l),
                None => match struct_defs.get(stripped.as_str()) {
                    Some(l) => Some(l),
                    None => match struct_defs.get(last_segment(name.as_str()).as_str()) {
                        Some(l) => Some(l),
                        None => struct_defs.get(last_segment(stripped.as_str()).as_str()),
                    },
                },
            };
            match layout {
                Some(l) => {
                    if l.total_size < 0 || l.total_size > (u32::MAX as i64) {
                        return None;
                    }
                    let total_size = l.total_size as u32;
                    let chunk_count = ((total_size as u64 + 7) / 8) as usize;
                    Some(AbiType::Aggregate { chunk_count, total_size })
                },
                None => Some(AbiType::Primitive(BackendType::Ptr)),
            }
        },
        _ => Some(AbiType::Primitive(BackendType::from_frontend(ty))),
    }
}

/// Where the last segment of `s` starts, looking at the first `i` positions: just after
/// the last `::` that begins among them, or 0.
pub open spec fn segment_start(s: Seq<char>, i: int) -> int
    decreases i,
{
    if i <= 0 {
        0
    } else if i < s.len() && s[i - 1] == ':' && s[i] == ':' {
        i + 1
    } else {
        segment_start(s, i - 1)
    }
}

/// The part of `s` after its last `::` (all of `s` when it has none).
fn last_segment(s: &str) -> (res: String)
    ensures
        res@ == s@.subrange(segment_start(s@, s@.len() as int), s@.len() as int),
{
    let cs = chars_of(s);
    let mut start: usize = 0;
    let mut i: usize = 0;
    while i < cs.len()
        invariant
            cs@ == s@,
            0 <= start <= cs@.len(),
            0 <= i <= cs@.len(),
            start == segment_start(s@, i as int),
        decreases cs.len() - i,
    {
        if i + 1 < cs.len() && cs[i] == ':' && cs[i + 1] == ':' {
            start = i + 2;
        }
        i = i + 1;
    }
    let mut out: Vec<char> = Vec::new();
    let mut k = start;
    while k < cs.len()
        invariant
            cs@ == s@,
            start <= k <= cs@.len(),
            out@ == cs@.subrange(start as int, k as int),
        decreases cs.len() - k,
    {
        out.push(cs[k]);
        assert(out@ =~= cs@.subrange(start as int, k + 1));
        k = k + 1;
    }
    string_from_chars(&out)
}

/// The data symbols of the string literals passed as arguments in `insts`: each distinct
/// text once, in the order it first appears, named `_str_lit_` and its number.
pub fn string_literal_symbols(insts: &Vec<Instruction>) -> (res: Vec<(String, String)>)
    ensures
        forall|i: int| 0 <= i < res@.len() ==> (#[trigger] res@[i]).1@ == "_str_lit_"@ + dec(i as nat),
        forall|i: int, j: int| 0 <= i < j < res@.len() ==> res@[i].0@ != res@[j].0@,
        forall|k: int| 0 <= k < insts@.len() ==> (#[trigger] insts@[k].view() matches InstructionV::Arg {
            value: ValueV::Str(t),
        } ==> exists|i: int| 0 <= i < res@.len() && res@[i].0@ == t),
{
    let mut out: Vec<(String, String)> = Vec::new();
    let mut k: usize = 0;
    while k < insts.len()
        invariant
            0 <= k <= insts@.len(),
            forall|i: int| 0 <= i < out@.len() ==> (#[trigger] out@[i]).1@ == "_str_lit_"@ + dec(i as nat),
            forall|i: int, j: int| 0 <= i < j < out@.len() ==> out@[i].0@ != out@[j].0@,
            forall|m: int| 0 <= m < k ==> (#[trigger] insts@[m].view() matches InstructionV::Arg {
                value: ValueV::Str(t),
            } ==> exists|i: int| 0 <= i < out@.len() && out@[i].0@ == t),
        decreases insts.len() - k,
    {
        if let Instruction::Arg { value: Value::Str(text) } = &insts[k] {
            let mut found = false;
            let mut i: usize = 0;
            while i < out.len()
                invariant
                    0 <= i <= out@.len(),
                    found ==> exists|a: int| 0 <= a < out@.len() && out@[a].0@ == text@,
                    !found ==> forall|a: int| 0 <= a < i ==> out@[a].0@ != text@,
                decreases out.len() - i,
            {
                if str_eq(out[i].0.as_str(), text.as_str()) {
                    found = true;
                }
                i = i + 1;
            }
            if !found {
                let n = usize_to_string(out.len());
                let ghost before = out@;
                out.push((text.clone(), concat("_str_lit_", n.as_str())));
                proof {
                    assert forall|m: int| 0 <= m < k + 1 implies (#[trigger] insts@[m].view() matches InstructionV::Arg {
                        value: ValueV::Str(t),
                    } ==> exists|i: int| 0 <= i < out@.len() && out@[i].0@ == t) by {
                        if let InstructionV::Arg { value: ValueV::Str(t) } = insts@[m].view() {
                            if m < k {
                                let i = choose|i: int| 0 <= i < before.len() && before[i].0@ == t;
                                assert(out@[i] == before[i]);
                            } else {
                                assert(out@[before.len() as int].0@ == text@);
                            }
                        }
                    }
                    assert forall|i: int| 0 <= i < out@.len() implies (#[trigger] out@[i]).1@ == "_str_lit_"@ + dec(i as nat) by {
                        if i < before.len() {
                            assert(out@[i] == before[i]);
                        }
                    }
                }
            }
        }
        k = k + 1;
    }
    out
}

} // verus!
