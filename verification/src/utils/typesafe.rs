//! Type utilities of the compiler: name mangling, type rendering for messages,
//! type classification and the type compatibility check.
use crate::parse::parsing::{clone_type, lemma_types_view, type_eq, types_view, Type, TypeV};
use crate::semantics::analysis::StructSignature;
use crate::utils::fieldmap::{field_at, field_count, field_entries};
use crate::utils::strmap::StrMap;
use crate::utils::text::{concat, concat3, dec, usize_to_string};
use variadic::{field_name, pack_field_name};
use vstd::prelude::*;
use vstd::string::*;

pub mod variadic;


verus! {

/// Whether no variadic pack occurs anywhere in `t`.
pub open spec fn no_pack(t: TypeV) -> bool
    decreases t,
{
    match t {
        TypeV::VariadicPack { .. } => false,
        TypeV::Ptr(inner) => no_pack(*inner),
        TypeV::Array { element_type, .. } => no_pack(*element_type),
        TypeV::GenericInstance { args, .. } => all_no_pack(args),
        _ => true,
    }
}

/// Whether no variadic pack occurs in any of the types of `s`.
pub open spec fn all_no_pack(s: Seq<TypeV>) -> bool
    decreases s,
{
    if s.len() == 0 {
        true
    } else {
        all_no_pack(s.drop_last()) && no_pack(s.last())
    }
}

/// The mangled name of a type: the text that stands for it in symbol names.
pub open spec fn mangled(t: TypeV) -> Seq<char>
    decreases t,
{
    match t {
        TypeV::Int => "int"@,
        TypeV::UInt => "uint"@,
        TypeV::Int8 => "int8"@,
        TypeV::UInt8 => "uint8"@,
        TypeV::Float => "float"@,
        TypeV::Double => "double"@,
        TypeV::Bool => "bool"@,
        TypeV::Str => "str"@,
        TypeV::Char => "char"@,
        TypeV::Void => "void"@,
        TypeV::Any => "any"@,
        TypeV::Nil => "nil"@,
        TypeV::Struct(n) => n,
        TypeV::Enum(n) => n,
        TypeV::Ptr(inner) => "ptr__"@ + mangled(*inner),
        TypeV::Array { element_type, size } => "arr__"@ + mangled(*element_type) + "__"@ + dec(
            size as nat,
        ),
        TypeV::GenericInstance { name, args } => name + mangled_suffix(args),
        TypeV::GenericParam(s) => "gparam__"@ + s,
        TypeV::VariadicPack { .. } => Seq::empty(),
    }
}

/// `__` followed by the mangled name of each type of `s`, in order.
pub open spec fn mangled_suffix(s: Seq<TypeV>) -> Seq<char>
    decreases s,
{
    if s.len() == 0 {
        Seq::empty()
    } else {
        mangled_suffix(s.drop_last()) + "__"@ + mangled(s.last())
    }
}

/// The mangled names of the types of `s`, joined by `__`.
pub open spec fn mangled_joined(s: Seq<TypeV>) -> Seq<char>
    decreases s,
{
    if s.len() == 0 {
        Seq::empty()
    } else if s.len() == 1 {
        mangled(s[0])
    } else {
        mangled_joined(s.drop_last()) + "__"@ + mangled(s.last())
    }
}

/// How a type is written in messages.
pub open spec fn type_text(t: TypeV) -> Seq<char>
    decreases t,
{
    match t {
        TypeV::Struct(n) => n,
        TypeV::Ptr(inner) => "ptr<"@ + type_text(*inner) + ">"@,
        TypeV::Array { element_type, size } => "["@ + type_text(*element_type) + "; "@ + dec(
            size as nat,
        ) + "]"@,
        TypeV::GenericInstance { name, args } => name + "<"@ + type_texts_joined(args) + ">"@,
        TypeV::GenericParam(s) => "<"@ + s + ">"@,
        _ => typeof_text(t),
    }
}

/// How the types of `s` are written, joined by `, `.
pub open spec fn type_texts_joined(s: Seq<TypeV>) -> Seq<char>
    decreases s,
{
    if s.len() == 0 {
        Seq::empty()
    } else if s.len() == 1 {
        type_text(s[0])
    } else {
        type_texts_joined(s.drop_last()) + ", "@ + type_text(s.last())
    }
}

/// The short name of a type, as `typeof` gives it.
pub open spec fn typeof_text(t: TypeV) -> Seq<char>
    decreases t,
{
    match t {
        TypeV::Int => "int"@,
        TypeV::UInt => "uint"@,
        TypeV::Int8 => "i8"@,
        TypeV::UInt8 => "u8"@,
        TypeV::Float => "float"@,
        TypeV::Double => "double"@,
        TypeV::Bool => "bool"@,
        TypeV::Str => "str"@,
        TypeV::Char => "char"@,
        TypeV::Void => "void"@,
        TypeV::Any => "any"@,
        TypeV::Nil => "nil"@,
        TypeV::Struct(s) => s,
        TypeV::Enum(s) => s,
        TypeV::Ptr(s) => "ptr<"@ + typeof_text(*s) + ">"@,
        TypeV::Array { element_type, .. } => "["@ + typeof_text(*element_type) + "]"@,
        TypeV::GenericInstance { .. } => "generic_instance"@,
        TypeV::GenericParam(..) => "generic_param"@,
        TypeV::VariadicPack { .. } => "variadic"@,
    }
}

/// The value of `normalise_type`: generic instances become the structs named by their
/// mangled names, inside pointers and arrays too.
pub open spec fn normalised(t: TypeV) -> TypeV
    decreases t,
{
    match t {
        TypeV::GenericInstance { name, args } => TypeV::Struct(name + mangled_suffix(args)),
        TypeV::Ptr(inner) => TypeV::Ptr(Box::new(normalised(*inner))),
        TypeV::Array { element_type, size } => TypeV::Array {
            element_type: Box::new(normalised(*element_type)),
            size,
        },
        _ => t,
    }
}

pub open spec fn is_integer_v(t: TypeV) -> bool {
    t is Int || t is UInt || t is Int8 || t is UInt8 || t is Char
}

pub open spec fn is_signed_integer_v(t: TypeV) -> bool {
    t is Int || t is Int8
}

pub open spec fn is_unsigned_integer_v(t: TypeV) -> bool {
    t is UInt || t is UInt8 || t is Char
}

pub open spec fn is_decimal_v(t: TypeV) -> bool {
    t is Float || t is Double
}

pub open spec fn is_truthy_v(t: TypeV) -> bool {
    t is Int || t is UInt || t is Int8 || t is UInt8 || t is Bool || t is Str || t is Enum || t is Nil
}

pub open spec fn is_iterable_v(t: TypeV) -> bool {
    t is Struct || t is GenericInstance || t is VariadicPack
}

/// Whether the pair (`found`, `expected`) is made of `a` and `b`, in either order or twice the same.
pub open spec fn both_way(found: TypeV, expected: TypeV, a: TypeV, b: TypeV) -> bool {
    (found == a && expected == b) || (found == b && expected == a) || (found == a && expected
        == a) || (found == b && expected == b)
}

/// How strictly two types must agree.
#[derive(Clone, Copy, Debug, PartialEq, Eq)]
pub enum TypeCheckMode {
    /// Exact match only.
    Strict,
    /// Allows implicit conversions.
    Coercive,
    /// Allows any conversion.
    Passive,
}

/// Whether a value of type `found` is accepted where `expected` is required, in `mode`.
pub open spec fn types_match_v(expected: TypeV, found: TypeV, mode: TypeCheckMode) -> bool {
    if expected is Any || found is Any {
        true
    } else if expected is Nil || found is Nil {
        true
    } else if both_way(found, expected, TypeV::Int, TypeV::Enum(""@)) {
        true
    } else if expected == found {
        true
    } else {
        match mode {
            TypeCheckMode::Strict => false,
            TypeCheckMode::Coercive => {
                ||| (is_integer_v(expected) && is_integer_v(found))
                ||| both_way(found, expected, TypeV::Ptr(Box::new(TypeV::Char)), TypeV::Str)
                ||| both_way(found, expected, TypeV::Char, TypeV::UInt8)
                ||| (is_decimal_v(expected) && is_decimal_v(found))
                ||| (is_integer_v(found) && is_decimal_v(expected))
                ||| (is_integer_v(expected) && is_decimal_v(found))
            },
            TypeCheckMode::Passive => true,
        }
    }
}

/// The mangled names of `s` as a suffix, one `__` before each.
proof fn lemma_suffix_push(s: Seq<TypeV>, t: TypeV)
    ensures
        mangled_suffix(s.push(t)) == mangled_suffix(s) + "__"@ + mangled(t),
{
    assert(s.push(t).drop_last() =~= s);
}

/// Each type of a pack-free list is pack-free.
pub proof fn lemma_all_no_pack_index(s: Seq<TypeV>, i: int)
    requires
        all_no_pack(s),
        0 <= i < s.len(),
    ensures
        no_pack(s[i]),
    decreases s.len(),
{
    if i < s.len() - 1 {
        assert(s.drop_last()[i] == s[i]);
        lemma_all_no_pack_index(s.drop_last(), i);
    }
}

/// A list whose types are each pack-free is pack-free.
pub proof fn lemma_all_no_pack_from(s: Seq<TypeV>)
    requires
        forall|i: int| 0 <= i < s.len() ==> no_pack(#[trigger] s[i]),
    ensures
        all_no_pack(s),
    decreases s.len(),
{
    if s.len() > 0 {
        assert forall|i: int| 0 <= i < s.drop_last().len() implies no_pack(#[trigger] s.drop_last()[i]) by {
            assert(s.drop_last()[i] == s[i]);
        }
        lemma_all_no_pack_from(s.drop_last());
        assert(no_pack(s[s.len() - 1]));
    }
}

proof fn lemma_all_no_pack_take(s: Seq<TypeV>, i: int)
    requires
        all_no_pack(s),
        0 <= i <= s.len(),
    ensures
        all_no_pack(s.take(i)),
    decreases s.len(),
{
    if i < s.len() {
        assert(s.drop_last().take(i) =~= s.take(i));
        lemma_all_no_pack_take(s.drop_last(), i);
    } else {
        assert(s.take(i) =~= s);
    }
}

/// The mangled text that `args` add after a base name: `__` and the mangled name of each.
fn mangled_suffix_of(args: &[Type]) -> (res: String)
    requires
        all_no_pack(types_view(args@)),
    ensures
        res@ == mangled_suffix(types_view(args@)),
    decreases args@, 0nat,
{
    let ghost tv = types_view(args@);
    proof {
        lemma_types_view(args@);
    }
    let mut out = String::new();
    let mut i: usize = 0;
    while i < args.len()
        invariant
            0 <= i <= args.len(),
            tv == types_view(args@),
            tv.len() == args@.len(),
            forall|j: int| 0 <= j < args@.len() ==> #[trigger] tv[j] == args@[j]@,
            all_no_pack(tv),
            out@ == mangled_suffix(tv.take(i as int)),
        decreases args.len() - i,
    {
        proof {
            lemma_all_no_pack_index(tv, i as int);
            lemma_suffix_push(tv.take(i as int), tv[i as int]);
            assert(tv.take(i as int).push(tv[i as int]) =~= tv.take(i + 1));
        }
        let m = type_to_mangled_string(&args[i]);
        out.append("__");
        out.append(m.as_str());
        proof {
            reveal_strlit("__");
        }
        i = i + 1;
    }
    assert(tv.take(args.len() as int) =~= tv);
    out
}

/// `base` followed by `__` and the mangled name of each type of `args`.
pub fn mangle_name(base_name: &str, args: &[Type]) -> (res: String)
    requires
        all_no_pack(types_view(args@)),
    ensures
        res@ == base_name@ + mangled_suffix(types_view(args@)),
{
    let suffix = mangled_suffix_of(args);
    concat(base_name, suffix.as_str())
}

/// The mangled name of a type. A variadic pack has none: it is never mangled.
pub fn type_to_mangled_string(ty: &Type) -> (res: String)
    requires
        no_pack(ty@),
    ensures
        res@ == mangled(ty@),
    decreases ty, 1nat,
{
    match ty {
        Type::Int => String::from_str("int"),
        Type::UInt => String::from_str("uint"),
        Type::Int8 => String::from_str("int8"),
        Type::UInt8 => String::from_str("uint8"),
        Type::Float => String::from_str("float"),
        Type::Double => String::from_str("double"),
        Type::Bool => String::from_str("bool"),
        Type::Str => String::from_str("str"),
        Type::Char => String::from_str("char"),
        Type::Void => String::from_str("void"),
        Type::Any => String::from_str("any"),
        Type::Nil => String::from_str("nil"),
        Type::Struct(name) => name.clone(),
        Type::Enum(name) => name.clone(),
        Type::Ptr(inner) => {
            let m = type_to_mangled_string(inner);
            concat("ptr__", m.as_str())
        },
        Type::Array { element_type, size } => {
            let m = type_to_mangled_string(element_type);
            let n = usize_to_string(*size);
            let a = concat3("arr__", m.as_str(), "__");
            concat(a.as_str(), n.as_str())
        },
        Type::GenericInstance { name, args } => {
            let suffix = mangled_suffix_of(args.as_slice());
            concat(name.as_str(), suffix.as_str())
        },
        Type::GenericParam(s) => concat("gparam__", s.as_str()),
        Type::VariadicPack { .. } => {
            proof {
                assert(false);
            }
            String::new()
        },
    }
}


/// Whether `normalise_type` can rewrite `t`: every generic instance that it reaches has
/// no variadic pack among its arguments.
pub open spec fn normalisable(t: TypeV) -> bool
    decreases t,
{
    match t {
        TypeV::GenericInstance { args, .. } => all_no_pack(args),
        TypeV::Ptr(inner) => normalisable(*inner),
        TypeV::Array { element_type, .. } => normalisable(*element_type),
        _ => true,
    }
}

proof fn lemma_joined_push(s: Seq<TypeV>, t: TypeV)
    requires
        s.len() > 0,
    ensures
        mangled_joined(s.push(t)) == mangled_joined(s) + "__"@ + mangled(t),
{
    assert(s.push(t).drop_last() =~= s);
}

/// The name of the instance of a variadic function for the pack types `variadic_types`:
/// the base name, a dot, and the mangled names of the pack types joined by `__`.
pub fn mangle_variadic(base_mangled_name: &str, variadic_types: &[Type]) -> (res: String)
    requires
        all_no_pack(types_view(variadic_types@)),
    ensures
        res@ == base_mangled_name@ + "."@ + mangled_joined(types_view(variadic_types@)),
{
    let ghost tv = types_view(variadic_types@);
    proof {
        lemma_types_view(variadic_types@);
        reveal_strlit(".");
        reveal_strlit("__");
    }
    let mut out = concat(base_mangled_name, ".");
    let mut i: usize = 0;
    while i < variadic_types.len()
        invariant
            0 <= i <= variadic_types.len(),
            tv == types_view(variadic_types@),
            tv.len() == variadic_types@.len(),
            forall|j: int| 0 <= j < variadic_types@.len() ==> #[trigger] tv[j] == variadic_types@[j]@,
            all_no_pack(tv),
            out@ == base_mangled_name@ + "."@ + mangled_joined(tv.take(i as int)),
        decreases variadic_types.len() - i,
    {
        proof {
            lemma_all_no_pack_index(tv, i as int);
            assert(tv.take(i as int).push(tv[i as int]) =~= tv.take(i + 1));
            if i > 0 {
                lemma_joined_push(tv.take(i as int), tv[i as int]);
            } else {
                assert(tv.take(1) =~= seq![tv[0]]);
            }
        }
        let m = type_to_mangled_string(&variadic_types[i]);
        if i > 0 {
            out.append("__");
        }
        out.append(m.as_str());
        i = i + 1;
    }
    assert(tv.take(variadic_types.len() as int) =~= tv);
    out
}

/// `ty` with every generic instance replaced by the struct named by its mangled name.
pub fn normalise_type(ty: &Type) -> (res: Type)
    requires
        normalisable(ty@),
    ensures
        res@ == normalised(ty@),
    decreases ty,
{
    match ty {
        Type::GenericInstance { name, args } => {
            let mangled_name = mangle_name(name.as_str(), args.as_slice());
            Type::Struct(mangled_name)
        },
        Type::Ptr(inner) => Type::Ptr(Box::new(normalise_type(inner))),
        Type::Array { element_type, size } => Type::Array {
            element_type: Box::new(normalise_type(element_type)),
            size: *size,
        },
        _ => clone_type(ty),
    }
}

/// Whether the pair (`found`, `expected`) is made of `a` and `b`, in either order or twice the same.
pub fn both_way_allow(found: &Type, expected: &Type, a: Type, b: Type) -> (res: bool)
    ensures
        res == both_way(found@, expected@, a@, b@),
{
    (type_eq(found, &a) && type_eq(expected, &b)) || (type_eq(found, &b) && type_eq(expected, &a))
        || (type_eq(found, &a) && type_eq(expected, &a)) || (type_eq(found, &b) && type_eq(
        expected,
        &b,
    ))
}

/// Whether `ty` is one of the integer types (characters count as integers).
pub fn is_integer(ty: &Type) -> (res: bool)
    ensures
        res == is_integer_v(ty@),
{
    matches!(ty, Type::Int | Type::UInt | Type::Int8 | Type::UInt8 | Type::Char)
}

/// Whether `ty` is a signed integer type.
pub fn is_signed_integer(ty: &Type) -> (res: bool)
    ensures
        res == is_signed_integer_v(ty@),
{
    matches!(ty, Type::Int | Type::Int8)
}

/// Whether `ty` is an unsigned integer type (characters count as unsigned).
pub fn is_unsigned_integer(ty: &Type) -> (res: bool)
    ensures
        res == is_unsigned_integer_v(ty@),
{
    matches!(ty, Type::UInt | Type::UInt8 | Type::Char)
}

/// Whether `ty` is a floating-point type.
pub fn is_decimal(ty: &Type) -> (res: bool)
    ensures
        res == is_decimal_v(ty@),
{
    matches!(ty, Type::Float | Type::Double)
}

/// Whether a value of type `ty` can stand as a condition.
pub fn is_truthy_type(ty: &Type) -> (res: bool)
    ensures
        res == is_truthy_v(ty@),
{
    matches!(
        ty,
        Type::Int | Type::UInt | Type::Int8 | Type::UInt8 | Type::Bool | Type::Str | Type::Enum(..)
            | Type::Nil
    )
}

/// Whether a value of type `found` is accepted where `expected` is required, in `mode`:
/// `any` and `nil` match everything, `int` and the enum of empty name match each other,
/// equal types match; then strict mode refuses, coercive mode accepts the implicit
/// conversions between numeric types and between `str` and `ptr<char>`, and passive
/// mode accepts anything.
pub fn types_match(expected: &Type, found: &Type, mode: TypeCheckMode) -> (res: bool)
    ensures
        res == types_match_v(expected@, found@, mode),
{
    if matches!(expected, Type::Any) || matches!(found, Type::Any) {
        return true;
    }
    if matches!(expected, Type::Nil) || matches!(found, Type::Nil) {
        return true;
    }
    let empty = String::new();
    proof {
        assert(empty@ =~= ""@) by {
            reveal_strlit("");
        }
    }
    if both_way_allow(found, expected, Type::Int, Type::Enum(empty)) {
        return true;
    }
    if type_eq(expected, found) {
        return true;
    }
    match mode {
        TypeCheckMode::Strict => false,
        TypeCheckMode::Coercive => {
            if is_integer(expected) && is_integer(found) {
                return true;
            }
            let char_ptr = Type::Ptr(Box::new(Type::Char));
            assert(char_ptr@ == TypeV::Ptr(Box::new(TypeV::Char))) by {
                assert(Type::Char.view() == TypeV::Char);
            }
            if both_way_allow(found, expected, char_ptr, Type::Str) {
                return true;
            }
            if both_way_allow(found, expected, Type::Char, Type::UInt8) {
                return true;
            }
            if is_decimal(expected) && is_decimal(found) {
                return true;
            }
            if is_integer(found) && is_decimal(expected) {
                return true;
            }
            if is_integer(expected) && is_decimal(found) {
                return true;
            }
            false
        },
        TypeCheckMode::Passive => true,
    }
}

/// `types_match` in coercive mode.
pub fn types_compatible(expected: &Type, from: &Type) -> (res: bool)
    ensures
        res == types_match_v(expected@, from@, TypeCheckMode::Coercive),
{
    types_match(expected, from, TypeCheckMode::Coercive)
}

/// `types_match` in strict mode.
pub fn types_equal(expected: &Type, from: &Type) -> (res: bool)
    ensures
        res == types_match_v(expected@, from@, TypeCheckMode::Strict),
{
    types_match(expected, from, TypeCheckMode::Strict)
}

/// The short name of a type, as `typeof` gives it.
pub fn typeof_string(ty: &Type) -> (res: String)
    ensures
        res@ == typeof_text(ty@),
    decreases ty,
{
    match ty {
        Type::Int => String::from_str("int"),
        Type::UInt => String::from_str("uint"),
        Type::Int8 => String::from_str("i8"),
        Type::UInt8 => String::from_str("u8"),
        Type::Float => String::from_str("float"),
        Type::Double => String::from_str("double"),
        Type::Bool => String::from_str("bool"),
        Type::Str => String::from_str("str"),
        Type::Char => String::from_str("char"),
        Type::Void => String::from_str("void"),
        Type::Any => String::from_str("any"),
        Type::Nil => String::from_str("nil"),
        Type::Struct(s) => s.clone(),
        Type::Enum(s) => s.clone(),
        Type::Ptr(s) => {
            let inner = typeof_string(s);
            concat3("ptr<", inner.as_str(), ">")
        },
        Type::Array { element_type, .. } => {
            let inner = typeof_string(element_type);
            concat3("[", inner.as_str(), "]")
        },
        Type::GenericInstance { .. } => String::from_str("generic_instance"),
        Type::GenericParam(..) => String::from_str("generic_param"),
        Type::VariadicPack { .. } => String::from_str("variadic"),
    }
}

proof fn lemma_texts_push(s: Seq<TypeV>, t: TypeV)
    requires
        s.len() > 0,
    ensures
        type_texts_joined(s.push(t)) == type_texts_joined(s) + ", "@ + type_text(t),
{
    assert(s.push(t).drop_last() =~= s);
}

/// How the types of `args` are written, joined by `, `.
fn type_strings_joined(args: &Vec<Type>) -> (res: String)
    ensures
        res@ == type_texts_joined(types_view(args@)),
    decreases args, 0nat,
{
    let ghost tv = types_view(args@);
    proof {
        lemma_types_view(args@);
        reveal_strlit(", ");
    }
    let mut out = String::new();
    let mut i: usize = 0;
    while i < args.len()
        invariant
            0 <= i <= args.len(),
            tv == types_view(args@),
            tv.len() == args@.len(),
            forall|j: int| 0 <= j < args@.len() ==> #[trigger] tv[j] == args@[j]@,
            out@ == type_texts_joined(tv.take(i as int)),
        decreases args.len() - i,
    {
        proof {
            assert(tv.take(i as int).push(tv[i as int]) =~= tv.take(i + 1));
            if i > 0 {
                lemma_texts_push(tv.take(i as int), tv[i as int]);
            } else {
                assert(tv.take(1) =~= seq![tv[0]]);
                assert(out@ =~= Seq::<char>::empty());
            }
        }
        let m = type_to_string(&args[i]);
        if i > 0 {
            out.append(", ");
        }
        out.append(m.as_str());
        i = i + 1;
    }
    assert(tv.take(args.len() as int) =~= tv);
    out
}

/// How a type is written in messages.
pub fn type_to_string(ty: &Type) -> (res: String)
    ensures
        res@ == type_text(ty@),
    decreases ty, 1nat,
{
    match ty {
        Type::Struct(name) => name.clone(),
        Type::Ptr(inner) => {
            let s = type_to_string(inner);
            concat3("ptr<", s.as_str(), ">")
        },
        Type::Array { element_type, size } => {
            let e = type_to_string(element_type);
            let n = usize_to_string(*size);
            let a = concat3("[", e.as_str(), "; ");
            concat3(a.as_str(), n.as_str(), "]")
        },
        Type::GenericInstance { name, args } => {
            let joined = type_strings_joined(args);
            let a = concat3(name.as_str(), "<", joined.as_str());
            concat(a.as_str(), ">")
        },
        Type::GenericParam(s) => concat3("<", s.as_str(), ">"),
        _ => typeof_string(ty),
    }
}

/// Whether a `for .. in` loop can walk over a value of type `ty`.
pub fn is_iterable(ty: &Type) -> (res: bool)
    ensures
        res == is_iterable_v(ty@),
{
    matches!(ty, Type::Struct(_) | Type::GenericInstance { .. } | Type::VariadicPack { .. })
}


/// Normalising a type a second time changes nothing.
pub proof fn lemma_normalise_idempotent(t: TypeV)
    ensures
        normalised(normalised(t)) == normalised(t),
    decreases t,
{
    match t {
        TypeV::Ptr(inner) => lemma_normalise_idempotent(*inner),
        TypeV::Array { element_type, .. } => lemma_normalise_idempotent(*element_type),
        _ => {},
    }
}

/// Every type matches itself, in every mode.
pub proof fn lemma_types_match_reflexive(t: TypeV, mode: TypeCheckMode)
    ensures
        types_match_v(t, t, mode),
{
}

/// Whether two types match does not depend on which one is expected.
pub proof fn lemma_types_match_symmetric(a: TypeV, b: TypeV, mode: TypeCheckMode)
    ensures
        types_match_v(a, b, mode) == types_match_v(b, a, mode),
{
}

/// A looser mode accepts all that a stricter one accepts, and passive mode accepts everything.
pub proof fn lemma_types_match_modes(e: TypeV, f: TypeV)
    ensures
        types_match_v(e, f, TypeCheckMode::Strict) ==> types_match_v(e, f, TypeCheckMode::Coercive),
        types_match_v(e, f, TypeCheckMode::Passive),
{
}

/// The value of a list of walkable elements: each element's name, if any, and type.
pub open spec fn elements_view(v: Seq<(Option<String>, Type)>) -> Seq<(Option<Seq<char>>, TypeV)> {
    v.map_values(
        |e: (Option<String>, Type)|
            (
                match e.0 {
                    Some(n) => Some(n@),
                    None => None,
                },
                e.1@,
            ),
    )
}

/// The elements of a struct signature: its fields, named, in order.
pub open spec fn signature_elements(sig: StructSignature) -> Seq<(Option<Seq<char>>, TypeV)> {
    field_entries(sig.fields).map_values(|e: (Seq<char>, TypeV)| (Some(e.0), e.1))
}

/// What a `for .. in` loop walks over in a value of type `t`, with the struct
/// signatures `structs`: the fields of a struct (or of the instance of a generic struct,
/// under its mangled name), or the arguments of a pack; nothing for other types or for
/// an unknown struct.
pub open spec fn iterable_elements_v(t: TypeV, structs: StrMap<StructSignature>) -> Option<
    Seq<(Option<Seq<char>>, TypeV)>,
> {
    match t {
        TypeV::Struct(name) => match structs.lookup(name) {
            Some(sig) => Some(signature_elements(sig)),
            None => None,
        },
        TypeV::GenericInstance { name, args } => match structs.lookup(
            name + mangled_suffix(args),
        ) {
            Some(sig) => Some(signature_elements(sig)),
            None => None,
        },
        TypeV::VariadicPack { types, .. } => Some(
            Seq::new(types.len(), |k: int| (Some(pack_field_name(k as nat)), types[k])),
        ),
        _ => None,
    }
}

/// Whether `iterable_elements` can look at `t`: a generic instance must have no
/// variadic pack among its arguments, since its mangled name is looked up.
pub open spec fn iterable_lookup_ok(t: TypeV) -> bool {
    match t {
        TypeV::GenericInstance { args, .. } => all_no_pack(args),
        _ => true,
    }
}

/// The fields of `sig`, named, in order.
fn signature_fields(sig: &StructSignature) -> (res: Vec<(Option<String>, Type)>)
    ensures
        elements_view(res@) == signature_elements(*sig),
{
    let n = field_count(&sig.fields);
    let ghost e = field_entries(sig.fields);
    let mut result: Vec<(Option<String>, Type)> = Vec::new();
    let mut i: usize = 0;
    while i < n
        invariant
            0 <= i <= n,
            n == e.len(),
            e == field_entries(sig.fields),
            elements_view(result@) =~= e.take(i as int).map_values(
                |x: (Seq<char>, TypeV)| (Some(x.0), x.1),
            ),
        decreases n - i,
    {
        let (fname, ftype) = field_at(&sig.fields, i);
        let ghost before = result@;
        result.push((Some(fname.clone()), clone_type(ftype)));
        proof {
            assert(e.take(i + 1) =~= e.take(i as int).push(e[i as int]));
            assert(elements_view(result@) =~= elements_view(before).push(
                (Some(e[i as int].0), e[i as int].1),
            ));
        }
        i = i + 1;
    }
    assert(e.take(n as int) =~= e);
    result
}

/// What a `for .. in` loop walks over in a value of type `ty`.
pub fn iterable_elements(ty: &Type, structs: &StrMap<StructSignature>) -> (res: Option<
    Vec<(Option<String>, Type)>,
>)
    requires
        structs.wf(),
        iterable_lookup_ok(ty@),
    ensures
        match res {
            Some(v) => iterable_elements_v(ty@, *structs) == Some(elements_view(v@)),
            None => iterable_elements_v(ty@, *structs) is None,
        },
{
    match ty {
        Type::Struct(name) => {
            let sig = structs.get(name.as_str())?;
            Some(signature_fields(sig))
        },
        Type::GenericInstance { name, args } => {
            let concrete_name = mangle_name(name.as_str(), args.as_slice());
            let sig = structs.get(concrete_name.as_str())?;
            Some(signature_fields(sig))
        },
        Type::VariadicPack { types, .. } => {
            let ghost tv = types_view(types@);
            proof {
                lemma_types_view(types@);
            }
            let mut result: Vec<(Option<String>, Type)> = Vec::new();
            let mut i: usize = 0;
            while i < types.len()
                invariant
                    0 <= i <= types.len(),
                    tv == types_view(types@),
                    tv.len() == types@.len(),
                    forall|j: int| 0 <= j < types@.len() ==> #[trigger] tv[j] == types@[j]@,
                    elements_view(result@) =~= Seq::new(
                        i as nat,
                        |k: int| (Some(pack_field_name(k as nat)), tv[k]),
                    ),
                decreases types.len() - i,
            {
                let ghost before = result@;
                result.push((Some(field_name(i)), clone_type(&types[i])));
                proof {
                    assert(elements_view(result@) =~= elements_view(before).push(
                        (Some(pack_field_name(i as nat)), tv[i as int]),
                    ));
                }
                i = i + 1;
            }
            Some(result)
        },
        _ => None,
    }
}

} // verus!
