use mysz_core::parse::parsing::Type;
use mysz_core::semantics::analysis::StructSignature;
use mysz_core::utils::location::Location;
use mysz_core::utils::strmap::StrMap;
use mysz_core::utils::typesafe::variadic::{field_name, length_field, parse_field, structure, PackField};
use mysz_core::utils::typesafe::{
    both_way_allow, is_decimal, is_integer, is_iterable, is_signed_integer, is_truthy_type,
    is_unsigned_integer, iterable_elements, mangle_name, mangle_variadic, normalise_type,
    type_to_mangled_string, type_to_string, typeof_string, types_compatible, types_equal,
    types_match, TypeCheckMode,
};

fn st(n: &str) -> Type {
    Type::Struct(n.to_string())
}

#[test]
fn mangles_names_and_types() {
    assert_eq!(mangle_name("Box", &[Type::Int, Type::Ptr(Box::new(Type::Char))]), "Box__int__ptr__char");
    assert_eq!(mangle_name("f", &[]), "f");
    assert_eq!(
        type_to_mangled_string(&Type::Array { element_type: Box::new(Type::UInt8), size: 12 }),
        "arr__uint8__12"
    );
    assert_eq!(
        type_to_mangled_string(&Type::GenericInstance { name: "Pair".to_string(), args: vec![Type::Bool, st("P")] }),
        "Pair__bool__P"
    );
    assert_eq!(type_to_mangled_string(&Type::GenericParam("T".to_string())), "gparam__T");
    assert_eq!(mangle_variadic("print", &[]), "print.");
    assert_eq!(mangle_variadic("print", &[Type::Int, Type::Str]), "print.int__str");
}

#[test]
fn normalising_mangles_generic_instances_once() {
    let t = Type::Ptr(Box::new(Type::GenericInstance { name: "Box".to_string(), args: vec![Type::Int] }));
    let n = normalise_type(&t);
    assert_eq!(n, Type::Ptr(Box::new(st("Box__int"))));
    assert_eq!(normalise_type(&n), n);
}

#[test]
fn writes_types() {
    assert_eq!(type_to_string(&Type::Array { element_type: Box::new(Type::Int8), size: 3 }), "[i8; 3]");
    assert_eq!(
        type_to_string(&Type::GenericInstance { name: "M".to_string(), args: vec![Type::Int, Type::Str] }),
        "M<int, str>"
    );
    assert_eq!(type_to_string(&Type::GenericParam("T".to_string())), "<T>");
    assert_eq!(typeof_string(&Type::Array { element_type: Box::new(Type::Int), size: 3 }), "[int]");
    assert_eq!(typeof_string(&Type::Ptr(Box::new(Type::UInt8))), "ptr<u8>");
    assert_eq!(typeof_string(&Type::VariadicPack { name: "a".to_string(), types: vec![] }), "variadic");
}

#[test]
fn classifies_types() {
    assert!(is_integer(&Type::UInt8) && is_signed_integer(&Type::Int8) && is_unsigned_integer(&Type::UInt));
    assert!(is_integer(&Type::Char) && is_unsigned_integer(&Type::Char));
    assert!(!is_integer(&Type::Bool));
    assert!(is_decimal(&Type::Double) && !is_decimal(&Type::Int));
    assert!(is_truthy_type(&Type::Enum("E".to_string())) && !is_truthy_type(&Type::Char));
    assert!(is_iterable(&st("S")) && !is_iterable(&Type::Str));
}

#[test]
fn strict_matching_wants_the_same_type() {
    assert!(types_equal(&Type::Int, &Type::Int));
    assert!(!types_equal(&Type::Int, &Type::UInt));
    assert!(types_equal(&Type::Any, &Type::Str));
    assert!(types_equal(&Type::Nil, &st("S")));
    assert!(types_equal(&Type::Int, &Type::Enum(String::new())));
    assert!(!types_equal(&Type::Int, &Type::Enum("E".to_string())));
}

#[test]
fn coercive_matching_allows_numeric_conversions() {
    assert!(types_compatible(&Type::Int, &Type::UInt8));
    assert!(types_compatible(&Type::Double, &Type::Int));
    assert!(types_compatible(&Type::Float, &Type::Double));
    assert!(types_compatible(&Type::Str, &Type::Ptr(Box::new(Type::Char))));
    assert!(types_compatible(&Type::Char, &Type::UInt8));
    assert!(!types_compatible(&Type::Bool, &Type::Int));
    assert!(types_match(&Type::Bool, &Type::Int, TypeCheckMode::Passive));
    assert!(both_way_allow(&Type::Char, &Type::UInt8, Type::Char, Type::UInt8));
    assert!(!both_way_allow(&Type::Char, &Type::Int, Type::Char, Type::UInt8));
}

#[test]
fn pack_fields_read_back() {
    assert_eq!(field_name(12), "i12");
    assert_eq!(length_field(), "il");
    assert!(matches!(parse_field("il"), Some(PackField::Length)));
    assert!(matches!(parse_field("i7"), Some(PackField::Index(7))));
    assert!(matches!(parse_field("i+7"), Some(PackField::Index(7))));
    assert!(parse_field("i").is_none());
    assert!(parse_field("x1").is_none());
    assert!(parse_field("i99999999999999999999999").is_none());
}

#[test]
fn a_pack_structure_lists_its_fields_then_its_length() {
    let sig = structure(&[Type::Int, Type::Str], Location::new(1, 2, "f"));
    let names: Vec<String> = sig.fields.keys().cloned().collect();
    assert_eq!(names, vec!["i0", "i1", "il"]);
    assert_eq!(sig.fields.get("i1"), Some(&Type::Str));
    assert_eq!(sig.fields.get("il"), Some(&Type::Int));
    assert!(sig.generic_params.is_empty());
}

#[test]
fn iterates_structs_and_packs() {
    let mut structs: StrMap<StructSignature> = StrMap::new();
    structs.insert("Box__int".to_string(), structure(&[Type::Bool], Location::new(0, 0, "")));
    let elems = iterable_elements(
        &Type::GenericInstance { name: "Box".to_string(), args: vec![Type::Int] },
        &structs,
    )
    .unwrap();
    assert_eq!(elems.len(), 2);
    assert_eq!(elems[0], (Some("i0".to_string()), Type::Bool));
    let pack = iterable_elements(
        &Type::VariadicPack { name: "p".to_string(), types: vec![Type::Char] },
        &structs,
    )
    .unwrap();
    assert_eq!(pack, vec![(Some("i0".to_string()), Type::Char)]);
    assert!(iterable_elements(&st("Missing"), &structs).is_none());
    assert!(iterable_elements(&Type::Int, &structs).is_none());
}
