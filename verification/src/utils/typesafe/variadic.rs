//! The naming convention of variadic argument packs: inside a variadic function the
//! pack behaves as a struct whose fields `i0`, `i1`, ... hold the arguments and whose
//! field `il` holds their number.
use crate::parse::parsing::{clone_type, lemma_types_view, types_view, Type, TypeV};
use crate::semantics::analysis::StructSignature;
use crate::utils::fieldmap::{
    distinct_names, entries_after_insert, field_entries, insert_field, new_field_map,
    position_of,
};
use crate::utils::location::Location;
use crate::utils::text::{
    all_digits, chars_of, concat, dec, digit_value, digits_value, is_digit_char, lemma_dec_digits,
    lemma_dec_injective, lemma_digits_value_prefix, usize_to_string,
};
use vstd::prelude::*;
use vstd::string::*;

verus! {

/// The name of the field of a pack that holds argument number `index`: `i` and the index.
pub open spec fn pack_field_name(index: nat) -> Seq<char> {
    "i"@ + dec(index)
}

/// The fields of the pack of arguments of types `ts`: one per argument, then the count.
pub open spec fn pack_entries(ts: Seq<TypeV>) -> Seq<(Seq<char>, TypeV)> {
    Seq::new(ts.len(), |k: int| (pack_field_name(k as nat), ts[k])).push(("il"@, TypeV::Int))
}

/// The name of the field that holds argument number `index`.
pub fn field_name(index: usize) -> (res: String)
    ensures
        res@ == pack_field_name(index as nat),
{
    let n = usize_to_string(index);
    concat("i", n.as_str())
}

/// The name of the field that holds the number of arguments.
pub fn length_field() -> (res: &'static str)
    ensures
        res@ == "il"@,
{
    "il"
}

/// A field of a pack, as `parse_field` recognises it.
#[derive(Debug, PartialEq, Eq)]
pub enum PackField {
    /// `pack.iN`: the Nth variadic argument.
    Index(usize),
    /// `pack.il`: the number of variadic arguments passed.
    Length,
}

/// The unsigned size that `s` writes, as `usize::from_str` reads it: an optional `+`,
/// then one or more decimal digits whose value fits.
pub open spec fn parsed_usize(s: Seq<char>) -> Option<usize> {
    let digits = if s.len() > 0 && s[0] == '+' {
        s.drop_first()
    } else {
        s
    };
    if all_digits(digits) && digits_value(digits) <= usize::MAX {
        Some(digits_value(digits) as usize)
    } else {
        None
    }
}

/// What `parse_field` recognises in a field name.
pub open spec fn parsed_field(f: Seq<char>) -> Option<PackField> {
    if f == "il"@ {
        Some(PackField::Length)
    } else if f.len() > 0 && f[0] == 'i' {
        match parsed_usize(f.drop_first()) {
            Some(n) => Some(PackField::Index(n)),
            None => None,
        }
    } else {
        None
    }
}

/// Reads an unsigned size from a run of characters, as `usize::from_str` does.
pub(crate) fn parse_usize(s: &Vec<char>, start: usize) -> (res: Option<usize>)
    requires
        start <= s@.len(),
    ensures
        res == parsed_usize(s@.skip(start as int)),
{
    let ghost t = s@.skip(start as int);
    let mut i = start;
    if i < s.len() && s[i] == '+' {
        i = i + 1;
    }
    let ghost digits = s@.skip(i as int);
    assert(digits == if t.len() > 0 && t[0] == '+' {
        t.drop_first()
    } else {
        t
    });
    if i == s.len() {
        return None;
    }
    let mut v: usize = 0;
    let mut j = i;
    while j < s.len()
        invariant
            i <= j <= s@.len(),
            i < s@.len(),
            digits == s@.skip(i as int),
            parsed_usize(s@.skip(start as int)) == (if all_digits(digits) && digits_value(digits)
                <= usize::MAX {
                Some(digits_value(digits) as usize)
            } else {
                None
            }),
            forall|k: int| i <= k < j ==> is_digit_char(#[trigger] s@[k]),
            v as nat == digits_value(s@.subrange(i as int, j as int)),
        decreases s@.len() - j,
    {
        let c = s[j];
        if !('0' <= c && c <= '9') {
            assert(digits[j - i] == c);
            return None;
        }
        let d = (c as u32 - '0' as u32) as usize;
        assert(s@.subrange(i as int, j + 1).drop_last() =~= s@.subrange(i as int, j as int));
        assert(digits_value(s@.subrange(i as int, j + 1)) == v * 10 + d);
        match v.checked_mul(10) {
            Some(m) => match m.checked_add(d) {
                Some(w) => {
                    v = w;
                },
                None => {
                    proof {
                        assert forall|k: int| 0 <= k < j + 1 - i implies is_digit_char(
                            #[trigger] s@.subrange(i as int, j + 1)[k],
                        ) by {
                            assert(s@.subrange(i as int, j + 1)[k] == s@[i + k]);
                        }
                        if all_digits(digits) {
                            assert(s@.subrange(i as int, j + 1) =~= digits.take(j + 1 - i));
                            lemma_digits_value_prefix(digits, j + 1 - i);
                        }
                    }
                    return None;
                },
            },
            None => {
                proof {
                    if all_digits(digits) {
                        assert(s@.subrange(i as int, j + 1) =~= digits.take(j + 1 - i));
                        lemma_digits_value_prefix(digits, j + 1 - i);
                    }
                }
                return None;
            },
        }
        j = j + 1;
    }
    assert(s@.subrange(i as int, s@.len() as int) =~= digits);
    Some(v)
}

/// Reads a field name against the pack naming convention, without knowing the types of
/// the arguments: `il` is the count, `i` followed by a number is that argument.
pub fn parse_field(field: &str) -> (res: Option<PackField>)
    ensures
        res == parsed_field(field@),
{
    let chars = chars_of(field);
    proof {
        reveal_strlit("il");
    }
    if chars.len() == 2 && chars[0] == 'i' && chars[1] == 'l' {
        assert(chars@ =~= "il"@);
        return Some(PackField::Length);
    }
    assert(chars@ != "il"@);
    if chars.len() > 0 && chars[0] == 'i' {
        assert(chars@.skip(1) =~= chars@.drop_first());
        match parse_usize(&chars, 1) {
            Some(n) => Some(PackField::Index(n)),
            None => None,
        }
    } else {
        None
    }
}

/// The name of the field of argument `n` reads back as argument `n`.
pub proof fn lemma_parse_field_name(n: usize)
    ensures
        parsed_field(pack_field_name(n as nat)) == Some(PackField::Index(n)),
{
    reveal_strlit("i");
    reveal_strlit("il");
    lemma_dec_digits(n as nat);
    let f = pack_field_name(n as nat);
    assert(f.drop_first() =~= dec(n as nat));
    assert(dec(n as nat)[0] != '+') by {
        assert(is_digit_char(dec(n as nat)[0]));
    }
    if f == "il"@ {
        assert(f[1] == 'l');
        assert(is_digit_char(dec(n as nat)[0]));
    }
}

/// The name of the count field reads back as the count.
pub proof fn lemma_parse_length_field()
    ensures
        parsed_field("il"@) == Some(PackField::Length),
{
}

/// Distinct arguments have distinct field names, and none is the count field.
pub proof fn lemma_pack_field_names_distinct(a: nat, b: nat)
    ensures
        a != b ==> pack_field_name(a) != pack_field_name(b),
        pack_field_name(a) != "il"@,
{
    reveal_strlit("i");
    reveal_strlit("il");
    lemma_dec_digits(a);
    if pack_field_name(a) == pack_field_name(b) {
        assert(dec(a) =~= pack_field_name(a).drop_first());
        assert(dec(b) =~= pack_field_name(b).drop_first());
        lemma_dec_injective(a, b);
    }
    if pack_field_name(a) == "il"@ {
        assert(pack_field_name(a)[1] == dec(a)[0]);
        assert(is_digit_char(dec(a)[0]));
    }
}

/// The struct that a pack of arguments of types `fields` behaves as: a field `iN` for
/// each argument, then `il` of type `int` for the count.
pub fn structure(fields: &[Type], location: Location) -> (res: StructSignature)
    ensures
        field_entries(res.fields) == pack_entries(types_view(fields@)),
        res.generic_params@.len() == 0,
        res.location.view() == location.view(),
{
    let ghost tv = types_view(fields@);
    proof {
        lemma_types_view(fields@);
    }
    let mut struct_fields = new_field_map();
    let mut i: usize = 0;
    while i < fields.len()
        invariant
            0 <= i <= fields.len(),
            tv == types_view(fields@),
            tv.len() == fields@.len(),
            forall|j: int| 0 <= j < fields@.len() ==> #[trigger] tv[j] == fields@[j]@,
            field_entries(struct_fields) =~= Seq::new(
                i as nat,
                |k: int| (pack_field_name(k as nat), tv[k]),
            ),
            distinct_names(field_entries(struct_fields)),
        decreases fields.len() - i,
    {
        let name = field_name(i);
        let ty = clone_type(&fields[i]);
        let ghost e = field_entries(struct_fields);
        proof {
            assert forall|k: int| 0 <= k < e.len() implies e[k].0 != name@ by {
                lemma_pack_field_names_distinct(k as nat, i as nat);
            }
            assert(position_of(e, name@) is None);
        }
        insert_field(&mut struct_fields, name, ty);
        i = i + 1;
    }
    let ghost e = field_entries(struct_fields);
    let len_name = String::from_str(length_field());
    proof {
        assert forall|k: int| 0 <= k < e.len() implies e[k].0 != len_name@ by {
            lemma_pack_field_names_distinct(k as nat, 0);
        }
        assert(position_of(e, len_name@) is None);
    }
    insert_field(&mut struct_fields, len_name, Type::Int);
    assert(field_entries(struct_fields) =~= pack_entries(tv));
    StructSignature { generic_params: Vec::new(), fields: struct_fields, location }
}

} // verus!
