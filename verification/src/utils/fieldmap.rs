//! The ordered field maps of struct signatures, kept in an `indexmap::IndexMap`:
//! fields stay in declaration order, which later decides the memory layout of a
//! struct.
use crate::parse::parsing::{Type, TypeV};
use indexmap::IndexMap;
use vstd::prelude::*;

verus! {

#[verifier::external_type_specification]
#[verifier::external_body]
#[verifier::reject_recursive_types(K)]
#[verifier::reject_recursive_types(V)]
#[verifier::reject_recursive_types(S)]
pub struct ExIndexMap<K, V, S>(IndexMap<K, V, S>);

/// The entries of a field map, in the map's order: each field's name and type.
pub uninterp spec fn field_entries(m: IndexMap<String, Type>) -> Seq<(Seq<char>, TypeV)>;

/// Whether no two entries of `e` have the same name.
pub open spec fn distinct_names(e: Seq<(Seq<char>, TypeV)>) -> bool {
    forall|i: int, j: int| 0 <= i < e.len() && 0 <= j < e.len() && i != j ==> e[i].0 != e[j].0
}

/// The position of the entry named `k` in `e`, if there is one.
pub open spec fn position_of(e: Seq<(Seq<char>, TypeV)>, k: Seq<char>) -> Option<int> {
    if exists|i: int| 0 <= i < e.len() && e[i].0 == k {
        Some(choose|i: int| 0 <= i < e.len() && e[i].0 == k)
    } else {
        None
    }
}

/// The type of the field named `k` in `e`, if there is one.
pub open spec fn lookup_field(e: Seq<(Seq<char>, TypeV)>, k: Seq<char>) -> Option<TypeV> {
    match position_of(e, k) {
        Some(i) => Some(e[i].1),
        None => None,
    }
}

/// The entries of `e` once the field `k` is set to `v`: an existing field keeps its
/// place and takes the new type, a new field goes last.
pub open spec fn entries_after_insert(e: Seq<(Seq<char>, TypeV)>, k: Seq<char>, v: TypeV) -> Seq<(Seq<char>, TypeV)> {
    match position_of(e, k) {
        Some(i) => e.update(i, (k, v)),
        None => e.push((k, v)),
    }
}

/// Calls `IndexMap::new`: the result holds no field.
#[verifier::external_body]
pub fn new_field_map() -> (res: IndexMap<String, Type>)
    ensures
        field_entries(res) == Seq::<(Seq<char>, TypeV)>::empty(),
{
    IndexMap::new()
}

/// Calls `IndexMap::insert`: an existing key keeps its place and takes the new value,
/// a new key goes last; the map's keys stay distinct.
#[verifier::external_body]
pub fn insert_field(m: &mut IndexMap<String, Type>, key: String, value: Type)
    requires
        distinct_names(field_entries(*old(m))),
    ensures
        field_entries(*final(m)) == entries_after_insert(field_entries(*old(m)), key@, value@),
        distinct_names(field_entries(*final(m))),
{
    m.insert(key, value);
}

/// Calls `IndexMap::len`: the number of entries.
#[verifier::external_body]
pub fn field_count(m: &IndexMap<String, Type>) -> (res: usize)
    ensures
        res == field_entries(*m).len(),
{
    m.len()
}

/// Calls `IndexMap::get_index`: the entry at position `i`, taken within bounds.
#[verifier::external_body]
pub fn field_at(m: &IndexMap<String, Type>, i: usize) -> (res: (&String, &Type))
    requires
        i < field_entries(*m).len(),
    ensures
        res.0@ == field_entries(*m)[i as int].0,
        res.1@ == field_entries(*m)[i as int].1,
{
    m.get_index(i).unwrap()
}

/// Calls `IndexMap::get`: the type of the field named `key`, if the map holds it.
#[verifier::external_body]
pub fn field_get<'a>(m: &'a IndexMap<String, Type>, key: &str) -> (res: Option<&'a Type>)
    ensures
        match res {
            Some(t) => lookup_field(field_entries(*m), key@) == Some(t@),
            None => lookup_field(field_entries(*m), key@) is None,
        },
{
    m.get(key)
}


/// Whether no two entries of `e` have the same key.
pub open spec fn distinct_keys<V>(e: Seq<(Seq<char>, V)>) -> bool {
    forall|i: int, j: int| 0 <= i < e.len() && 0 <= j < e.len() && i != j ==> e[i].0 != e[j].0
}

/// The position of the entry with key `k` in `e`, if there is one.
pub open spec fn key_position<V>(e: Seq<(Seq<char>, V)>, k: Seq<char>) -> Option<int> {
    if exists|i: int| 0 <= i < e.len() && e[i].0 == k {
        Some(choose|i: int| 0 <= i < e.len() && e[i].0 == k)
    } else {
        None
    }
}

/// The value of the entry with key `k` in `e`, if there is one.
pub open spec fn key_lookup<V>(e: Seq<(Seq<char>, V)>, k: Seq<char>) -> Option<V> {
    match key_position(e, k) {
        Some(i) => Some(e[i].1),
        None => None,
    }
}

/// The entries of `e` once `k` is set to `v`: an existing key keeps its place and takes
/// the new value, a new key goes last.
pub open spec fn entries_set<V>(e: Seq<(Seq<char>, V)>, k: Seq<char>, v: V) -> Seq<(Seq<char>, V)> {
    match key_position(e, k) {
        Some(i) => e.update(i, (k, v)),
        None => e.push((k, v)),
    }
}

/// The entries of a struct layout's field table, in the table's order: each field's name,
/// offset and type.
pub uninterp spec fn offset_entries(m: IndexMap<String, (i64, Type)>) -> Seq<(Seq<char>, (i64, TypeV))>;

/// The entries of an enum's variant table, in the table's order: each variant's name and
/// number.
pub uninterp spec fn variant_entries(m: IndexMap<String, i64>) -> Seq<(Seq<char>, i64)>;

/// Calls `IndexMap::new` for a field table of a layout: the result holds no entry.
#[verifier::external_body]
pub fn new_offset_map() -> (res: IndexMap<String, (i64, Type)>)
    ensures
        offset_entries(res) == Seq::<(Seq<char>, (i64, TypeV))>::empty(),
{
    IndexMap::new()
}

/// Calls `IndexMap::insert` on a field table of a layout: an existing key keeps its place
/// and takes the new value, a new key goes last; the keys stay distinct.
#[verifier::external_body]
pub fn insert_offset(m: &mut IndexMap<String, (i64, Type)>, key: String, offset: i64, ty: Type)
    requires
        distinct_keys(offset_entries(*old(m))),
    ensures
        offset_entries(*final(m)) == entries_set(offset_entries(*old(m)), key@, (offset, ty@)),
        distinct_keys(offset_entries(*final(m))),
{
    m.insert(key, (offset, ty));
}

/// Calls `IndexMap::len` on a field table of a layout.
#[verifier::external_body]
pub fn offset_count(m: &IndexMap<String, (i64, Type)>) -> (res: usize)
    ensures
        res == offset_entries(*m).len(),
{
    m.len()
}

/// Calls `IndexMap::get_index` on a field table of a layout, within bounds.
#[verifier::external_body]
pub fn offset_at(m: &IndexMap<String, (i64, Type)>, i: usize) -> (res: (&String, &(i64, Type)))
    requires
        i < offset_entries(*m).len(),
    ensures
        res.0@ == offset_entries(*m)[i as int].0,
        (res.1).0 == offset_entries(*m)[i as int].1.0,
        (res.1).1@ == offset_entries(*m)[i as int].1.1,
{
    m.get_index(i).unwrap()
}

/// Calls `IndexMap::get` on a field table of a layout.
#[verifier::external_body]
pub fn offset_get<'a>(m: &'a IndexMap<String, (i64, Type)>, key: &str) -> (res: Option<&'a (i64, Type)>)
    ensures
        match res {
            Some(e) => key_lookup(offset_entries(*m), key@) == Some((e.0, e.1@)),
            None => key_lookup(offset_entries(*m), key@) is None,
        },
{
    m.get(key)
}

/// Calls `IndexMap::new` for an enum's variant table: the result holds no entry.
#[verifier::external_body]
pub fn new_variant_map() -> (res: IndexMap<String, i64>)
    ensures
        variant_entries(res) == Seq::<(Seq<char>, i64)>::empty(),
{
    IndexMap::new()
}

/// Calls `IndexMap::insert` on an enum's variant table: an existing key keeps its place
/// and takes the new value, a new key goes last; the keys stay distinct.
#[verifier::external_body]
pub fn insert_variant(m: &mut IndexMap<String, i64>, key: String, value: i64)
    requires
        distinct_keys(variant_entries(*old(m))),
    ensures
        variant_entries(*final(m)) == entries_set(variant_entries(*old(m)), key@, value),
        distinct_keys(variant_entries(*final(m))),
{
    m.insert(key, value);
}

/// Calls `IndexMap::get` on an enum's variant table.
#[verifier::external_body]
pub fn variant_get(m: &IndexMap<String, i64>, key: &str) -> (res: Option<i64>)
    ensures
        res == key_lookup(variant_entries(*m), key@),
{
    m.get(key).copied()
}

} // verus!
