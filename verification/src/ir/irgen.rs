//! Fresh-name generators for the lowering to three-address code, and the constant
//! values the lowering folds.
use crate::ir::tac::{CastType, Instruction, IrOp, ScopedMap, Value, ValueV};
use crate::parse::parsing::{
    clone_type, clone_types, duplicate_params, duplicate_strings, BinaryOp, Expr, ExprKind,
    Literal, Parameter, Program, Stmt, Type, TypeV, UnaryOp,
};
use crate::utils::fieldmap::{
    entries_set, key_lookup, new_offset_map, insert_offset, new_variant_map, insert_variant,
    offset_at, offset_count, offset_entries, offset_get, variant_entries, variant_get, distinct_keys, key_position,
};
use crate::utils::strmap::StrMap;
use crate::utils::text::{chars_of, concat, concat3, dec, lemma_dec_injective, str_eq, usize_to_string};
use crate::utils::typesafe::{no_pack, all_no_pack, type_to_mangled_string, typeof_string};
use crate::utils::typesafe::variadic;
use crate::utils::typesafe::variadic::lemma_pack_field_names_distinct;
use crate::semantics::analyser::{all_pack_free, lemma_subst_all, pack_free, subst_all, subst_v};
use crate::utils::typesafe::{mangle_name, mangle_variadic};
use crate::utils::fieldmap::{field_at, field_count, field_entries};
use crate::utils::location::Location;
use crate::parse::parsing::{type_eq, Identifier, stmt_no_use, stmts_no_use, lemma_stmts_no_use, lemma_branches_no_use};
use crate::ir::tac::InstructionV;
use crate::utils::typesafe::{type_text, type_to_string};
use crate::backend::clback::before_separator;
use crate::parse::parsing::{lemma_types_view, types_view};
use indexmap::IndexMap;
use vstd::prelude::*;
use vstd::string::*;

verus! {

/// A constant value known while lowering.
#[derive(Debug, PartialEq)]
pub enum ConstVal {
    Bool(bool),
    Str(String),
    Char(char),
    Int(i64),
}

/// The memory layout of a struct: its size, its alignment, and each field's offset and
/// type in declaration order.
#[derive(Debug)]
pub struct StructLayout {
    pub total_size: i64,
    pub alignment: i64,
    pub field_offsets: IndexMap<String, (i64, Type)>,
}

/// The name of temporary number `n`: `t` and the number.
pub open spec fn temp_name(n: nat) -> Seq<char> {
    "t"@ + dec(n)
}

/// The name of label number `n`: `L` and the number.
pub open spec fn label_name(n: nat) -> Seq<char> {
    "L"@ + dec(n)
}

/// Gives out the temporaries `t1`, `t2`, ... in turn.
pub struct TempGen {
    counter: usize,
}

impl TempGen {
    /// How many temporaries have been given out.
    pub closed spec fn count(&self) -> nat {
        self.counter as nat
    }

    pub fn new() -> (res: Self)
        ensures
            res.count() == 0,
    {
        Self { counter: 0 }
    }

    /// The next temporary.
    pub fn next_temp(&mut self) -> (res: String)
        requires
            old(self).count() < usize::MAX,
        ensures
            final(self).count() == old(self).count() + 1,
            res@ == temp_name(final(self).count()),
    {
        self.counter += 1;
        let n = usize_to_string(self.counter);
        concat("t", n.as_str())
    }
}

/// Gives out the labels `L1`, `L2`, ... in turn.
pub struct LabelGen {
    counter: usize,
}

impl LabelGen {
    /// How many labels have been given out.
    pub closed spec fn count(&self) -> nat {
        self.counter as nat
    }

    pub fn new() -> (res: Self)
        ensures
            res.count() == 0,
    {
        Self { counter: 0 }
    }

    /// The next label.
    pub fn next_label(&mut self) -> (res: String)
        requires
            old(self).count() < usize::MAX,
        ensures
            final(self).count() == old(self).count() + 1,
            res@ == label_name(final(self).count()),
    {
        self.counter += 1;
        let n = usize_to_string(self.counter);
        concat("L", n.as_str())
    }
}

/// Counts the functions lowered; their names are kept as they are.
pub struct FunctionGen {
    counter: usize,
}

impl FunctionGen {
    /// How many functions have been counted.
    pub closed spec fn count(&self) -> nat {
        self.counter as nat
    }

    pub fn new() -> (res: Self)
        ensures
            res.count() == 0,
    {
        Self { counter: 0 }
    }

    /// Counts one more function and gives back its name.
    pub fn next(&mut self, name: String) -> (res: String)
        requires
            old(self).count() < usize::MAX,
        ensures
            final(self).count() == old(self).count() + 1,
            res == name,
    {
        self.counter += 1;
        name
    }
}

/// Temporaries given out at different times have different names.
pub proof fn lemma_temp_names_distinct(a: nat, b: nat)
    requires
        a != b,
    ensures
        temp_name(a) != temp_name(b),
{
    reveal_strlit("t");
    if temp_name(a) == temp_name(b) {
        assert(dec(a) =~= temp_name(a).drop_first());
        assert(dec(b) =~= temp_name(b).drop_first());
        lemma_dec_injective(a, b);
    }
}

/// Labels given out at different times have different names.
pub proof fn lemma_label_names_distinct(a: nat, b: nat)
    requires
        a != b,
    ensures
        label_name(a) != label_name(b),
{
    reveal_strlit("L");
    if label_name(a) == label_name(b) {
        assert(dec(a) =~= label_name(a).drop_first());
        assert(dec(b) =~= label_name(b).drop_first());
        lemma_dec_injective(a, b);
    }
}

/// No temporary is named like a label.
pub proof fn lemma_temp_not_label(a: nat, b: nat)
    ensures
        temp_name(a) != label_name(b),
{
    reveal_strlit("t");
    reveal_strlit("L");
    assert(temp_name(a)[0] == 't');
    assert(label_name(b)[0] == 'L');
}


impl TempGen {
    /// How many temporaries have been given out, as a number.
    pub fn issued(&self) -> (res: usize)
        ensures
            res == self.count(),
    {
        self.counter
    }
}

impl LabelGen {
    /// How many labels have been given out, as a number.
    pub fn issued(&self) -> (res: usize)
        ensures
            res == self.count(),
    {
        self.counter
    }
}

impl FunctionGen {
    /// How many functions have been counted, as a number.
    pub fn issued(&self) -> (res: usize)
        ensures
            res == self.count(),
    {
        self.counter
    }
}

/// The value of a constant.
pub enum ConstValV {
    Bool(bool),
    Str(Seq<char>),
    Char(char),
    Int(i64),
}

impl ConstVal {
    pub open spec fn view(&self) -> ConstValV {
        match self {
            ConstVal::Bool(b) => ConstValV::Bool(*b),
            ConstVal::Str(s) => ConstValV::Str(s@),
            ConstVal::Char(c) => ConstValV::Char(*c),
            ConstVal::Int(i) => ConstValV::Int(*i),
        }
    }
}

/// `a op b` on integers, where it does not overflow and divides by no zero.
pub open spec fn int_fold(op: BinaryOp, a: i64, b: i64) -> Option<i64> {
    let r: int = match op {
        BinaryOp::Add => a + b,
        BinaryOp::Sub => a - b,
        BinaryOp::Mul => a * b,
        _ => 0,
    };
    match op {
        BinaryOp::Add | BinaryOp::Sub | BinaryOp::Mul => if i64::MIN <= r <= i64::MAX {
            Some(r as i64)
        } else {
            None
        },
        BinaryOp::Div => a.checked_div(b),
        BinaryOp::Mod => a.checked_rem(b),
        _ => None,
    }
}

/// The constant that `l op r` folds to, if it folds: equality and inequality of two
/// constants of one kind, `&&` and `||` of booleans, comparisons and arithmetic of
/// integers (not where it overflows or divides by zero).
pub open spec fn fold_v(op: BinaryOp, l: ConstValV, r: ConstValV) -> Option<ConstValV> {
    match (l, r) {
        (ConstValV::Str(a), ConstValV::Str(b)) => match op {
            BinaryOp::Eq => Some(ConstValV::Bool(a == b)),
            BinaryOp::NEq => Some(ConstValV::Bool(a != b)),
            _ => None,
        },
        (ConstValV::Char(a), ConstValV::Char(b)) => match op {
            BinaryOp::Eq => Some(ConstValV::Bool(a == b)),
            BinaryOp::NEq => Some(ConstValV::Bool(a != b)),
            _ => None,
        },
        (ConstValV::Bool(a), ConstValV::Bool(b)) => match op {
            BinaryOp::Eq => Some(ConstValV::Bool(a == b)),
            BinaryOp::NEq => Some(ConstValV::Bool(a != b)),
            BinaryOp::And => Some(ConstValV::Bool(a && b)),
            BinaryOp::Or => Some(ConstValV::Bool(a || b)),
            _ => None,
        },
        (ConstValV::Int(a), ConstValV::Int(b)) => match op {
            BinaryOp::Eq => Some(ConstValV::Bool(a == b)),
            BinaryOp::NEq => Some(ConstValV::Bool(a != b)),
            BinaryOp::Gt => Some(ConstValV::Bool(a > b)),
            BinaryOp::GtE => Some(ConstValV::Bool(a >= b)),
            BinaryOp::Lt => Some(ConstValV::Bool(a < b)),
            BinaryOp::LtE => Some(ConstValV::Bool(a <= b)),
            BinaryOp::And | BinaryOp::Or => None,
            _ => match int_fold(op, a, b) {
                Some(c) => Some(ConstValV::Int(c)),
                None => None,
            },
        },
        _ => None,
    }
}

/// What an expression folds to where that does not depend on what has been recorded:
/// `Some(Some(c))` where it folds to `c`, `Some(None)` where it does not fold, `None`
/// where it rests on a recorded type (a `typeof`). The left side of a binary operation
/// is folded first, and one that does not fold ends the folding.
pub open spec fn pure_const(e: Expr) -> Option<Option<ConstValV>>
    decreases e,
{
    match e.kind {
        ExprKind::Literal(Literal::Int(i)) => Some(Some(ConstValV::Int(i))),
        ExprKind::Literal(Literal::Char(c)) => Some(Some(ConstValV::Char(c))),
        ExprKind::Literal(Literal::Bool(b)) => Some(Some(ConstValV::Bool(b))),
        ExprKind::Literal(Literal::String(s)) => Some(Some(ConstValV::Str(s@))),
        ExprKind::Literal(_) => Some(None),
        ExprKind::Typeof { .. } => None,
        ExprKind::Binary { left, op, right } => match pure_const(*left) {
            Some(None) => Some(None),
            Some(Some(a)) => match pure_const(*right) {
                Some(None) => Some(None),
                Some(Some(b)) => Some(fold_v(op, a, b)),
                None => None,
            },
            None => None,
        },
        _ => Some(None),
    }
}

/// Folding a comparison of two integer constants gives the truth of that comparison of
/// the integers; so the six comparisons relate as an order does: `>=` is the negation of
/// `<` and the mirror of `<=`, holds of equal integers, and is `>` or `==`; likewise for
/// the others.
pub proof fn law_fold_integer_comparisons(a: i64, b: i64)
    ensures
        fold_v(BinaryOp::Eq, ConstValV::Int(a), ConstValV::Int(b)) == Some(ConstValV::Bool(a == b)),
        fold_v(BinaryOp::NEq, ConstValV::Int(a), ConstValV::Int(b)) == Some(ConstValV::Bool(a != b)),
        fold_v(BinaryOp::Gt, ConstValV::Int(a), ConstValV::Int(b)) == Some(ConstValV::Bool(a > b)),
        fold_v(BinaryOp::GtE, ConstValV::Int(a), ConstValV::Int(b)) == Some(ConstValV::Bool(a >= b)),
        fold_v(BinaryOp::Lt, ConstValV::Int(a), ConstValV::Int(b)) == Some(ConstValV::Bool(a < b)),
        fold_v(BinaryOp::LtE, ConstValV::Int(a), ConstValV::Int(b)) == Some(ConstValV::Bool(a <= b)),
        fold_v(BinaryOp::GtE, ConstValV::Int(a), ConstValV::Int(a)) == Some(ConstValV::Bool(true)),
        fold_v(BinaryOp::LtE, ConstValV::Int(a), ConstValV::Int(a)) == Some(ConstValV::Bool(true)),
        fold_v(BinaryOp::Gt, ConstValV::Int(a), ConstValV::Int(a)) == Some(ConstValV::Bool(false)),
        fold_v(BinaryOp::Lt, ConstValV::Int(a), ConstValV::Int(a)) == Some(ConstValV::Bool(false)),
        fold_v(BinaryOp::GtE, ConstValV::Int(a), ConstValV::Int(b)) == fold_v(
            BinaryOp::LtE,
            ConstValV::Int(b),
            ConstValV::Int(a),
        ),
        fold_v(BinaryOp::Gt, ConstValV::Int(a), ConstValV::Int(b)) == fold_v(
            BinaryOp::Lt,
            ConstValV::Int(b),
            ConstValV::Int(a),
        ),
        fold_v(BinaryOp::GtE, ConstValV::Int(a), ConstValV::Int(b)) matches Some(ConstValV::Bool(x)) && fold_v(
            BinaryOp::Lt,
            ConstValV::Int(a),
            ConstValV::Int(b),
        ) == Some(ConstValV::Bool(!x)),
        fold_v(BinaryOp::LtE, ConstValV::Int(a), ConstValV::Int(b)) matches Some(ConstValV::Bool(x)) && fold_v(
            BinaryOp::Gt,
            ConstValV::Int(a),
            ConstValV::Int(b),
        ) == Some(ConstValV::Bool(!x)),
        fold_v(BinaryOp::Eq, ConstValV::Int(a), ConstValV::Int(b)) matches Some(ConstValV::Bool(x)) && fold_v(
            BinaryOp::NEq,
            ConstValV::Int(a),
            ConstValV::Int(b),
        ) == Some(ConstValV::Bool(!x)),
{
}

/// Folding `/` and `%` of two integer constants, where the division is defined (no zero
/// divisor, no overflow), gives a quotient `q` and a remainder `r` that make up the
/// dividend, `q * b + r == a`, with the remainder smaller than the divisor in size and of
/// the sign of the dividend: division truncates toward zero. A zero divisor folds to
/// nothing.
pub proof fn law_fold_integer_division(a: i64, b: i64)
    ensures
        b != 0 && !(a == i64::MIN && b == -1) ==> exists|q: i64, r: i64|
            #![auto]
            fold_v(BinaryOp::Div, ConstValV::Int(a), ConstValV::Int(b)) == Some(ConstValV::Int(q)) && fold_v(
                BinaryOp::Mod,
                ConstValV::Int(a),
                ConstValV::Int(b),
            ) == Some(ConstValV::Int(r)) && q * b + r == a && (if a >= 0 {
                0 <= r
            } else {
                r <= 0
            }) && (if b > 0 {
                -b < r < b
            } else {
                b < r < -b
            }),
        b == 0 ==> fold_v(BinaryOp::Div, ConstValV::Int(a), ConstValV::Int(b)) is None && fold_v(
            BinaryOp::Mod,
            ConstValV::Int(a),
            ConstValV::Int(b),
        ) is None,
{
    if b != 0 && !(a == i64::MIN && b == -1) {
        let x = a as int;
        let d = b as int;
        let u: int = if x >= 0 {
            x
        } else {
            -x
        };
        let m: int = if d > 0 {
            d
        } else {
            -d
        };
        vstd::arithmetic::div_mod::lemma_fundamental_div_mod(u, m);
        vstd::arithmetic::div_mod::lemma_mod_pos_bound(u, m);
        vstd::arithmetic::div_mod::lemma_div_pos_is_pos(u, m);
        vstd::arithmetic::div_mod::lemma_div_is_ordered_by_denominator(u, 1, m);
        if m >= 2 {
            vstd::arithmetic::div_mod::lemma_div_is_ordered_by_denominator(u, 2, m);
        }
        let w = u / m;
        let rr = u % m;
        assert(u / 1 == u);
        assert(u == m * w + rr);
        let q: int = if x == 0 {
            0
        } else if (x > 0 && d > 0) || (x < 0 && d < 0) {
            w
        } else {
            -w
        };
        let r: int = if x == 0 {
            0
        } else if x > 0 {
            rr
        } else {
            -rr
        };
        if x == 0 {
            assert(w == 0) by {
                vstd::arithmetic::div_mod::lemma_div_is_ordered_by_denominator(0, 1, m);
            }
        }
        assert(q * d + r == x) by (nonlinear_arith)
            requires
                u == m * w + rr,
                u == (if x >= 0 {
                    x
                } else {
                    -x
                }),
                m == (if d > 0 {
                    d
                } else {
                    -d
                }),
                q == (if x == 0 {
                    0
                } else if (x > 0 && d > 0) || (x < 0 && d < 0) {
                    w
                } else {
                    -w
                }),
                r == (if x == 0 {
                    0
                } else if x > 0 {
                    rr
                } else {
                    -rr
                }),
                x == 0 ==> w == 0 && rr == 0,
        ;
        if x == 0 {
            assert(rr == 0);
        }
        assert(i64::MIN <= q <= i64::MAX);
        assert(fold_v(BinaryOp::Div, ConstValV::Int(a), ConstValV::Int(b)) == Some(ConstValV::Int(q as i64)));
        assert(fold_v(BinaryOp::Mod, ConstValV::Int(a), ConstValV::Int(b)) == Some(ConstValV::Int(r as i64)));
    }
}

/// Folding `&&` and `||` of two boolean constants gives their conjunction and
/// disjunction; `==` and `!=` of two constants of one kind give whether they are equal
/// and whether they differ.
pub proof fn law_fold_logic_and_equality(p: bool, q: bool, x: Seq<char>, y: Seq<char>, c: char, d: char)
    ensures
        fold_v(BinaryOp::And, ConstValV::Bool(p), ConstValV::Bool(q)) == Some(ConstValV::Bool(p && q)),
        fold_v(BinaryOp::Or, ConstValV::Bool(p), ConstValV::Bool(q)) == Some(ConstValV::Bool(p || q)),
        fold_v(BinaryOp::Eq, ConstValV::Bool(p), ConstValV::Bool(q)) == Some(ConstValV::Bool(p == q)),
        fold_v(BinaryOp::NEq, ConstValV::Bool(p), ConstValV::Bool(q)) == Some(ConstValV::Bool(p != q)),
        fold_v(BinaryOp::Eq, ConstValV::Str(x), ConstValV::Str(y)) == Some(ConstValV::Bool(x == y)),
        fold_v(BinaryOp::NEq, ConstValV::Str(x), ConstValV::Str(y)) == Some(ConstValV::Bool(x != y)),
        fold_v(BinaryOp::Eq, ConstValV::Char(c), ConstValV::Char(d)) == Some(ConstValV::Bool(c == d)),
        fold_v(BinaryOp::NEq, ConstValV::Char(c), ConstValV::Char(d)) == Some(ConstValV::Bool(c != d)),
{
}

/// Folding `+`, `-` or `*` of two integer constants gives the sum, difference or product
/// of the integers when it fits in 64 bits, and does not fold otherwise.
pub proof fn law_fold_integer_arithmetic(a: i64, b: i64)
    ensures
        fold_v(BinaryOp::Add, ConstValV::Int(a), ConstValV::Int(b)) == (if i64::MIN <= a + b <= i64::MAX {
            Some(ConstValV::Int((a + b) as i64))
        } else {
            None
        }),
        fold_v(BinaryOp::Sub, ConstValV::Int(a), ConstValV::Int(b)) == (if i64::MIN <= a - b <= i64::MAX {
            Some(ConstValV::Int((a - b) as i64))
        } else {
            None
        }),
        fold_v(BinaryOp::Mul, ConstValV::Int(a), ConstValV::Int(b)) == (if i64::MIN <= a * b <= i64::MAX {
            Some(ConstValV::Int((a * b) as i64))
        } else {
            None
        }),
{
}

/// Folds `l op r` into one constant, where `fold_v` says it folds.
pub fn fold_const(op: BinaryOp, l: ConstVal, r: ConstVal) -> (res: Option<ConstVal>)
    ensures
        match res {
            Some(c) => fold_v(op, l.view(), r.view()) == Some(c.view()),
            None => fold_v(op, l.view(), r.view()) is None,
        },
{
    match (l, r) {
        (ConstVal::Str(a), ConstVal::Str(b)) => match op {
            BinaryOp::Eq => Some(ConstVal::Bool(str_eq(a.as_str(), b.as_str()))),
            BinaryOp::NEq => Some(ConstVal::Bool(!str_eq(a.as_str(), b.as_str()))),
            _ => None,
        },
        (ConstVal::Char(a), ConstVal::Char(b)) => match op {
            BinaryOp::Eq => Some(ConstVal::Bool(a == b)),
            BinaryOp::NEq => Some(ConstVal::Bool(a != b)),
            _ => None,
        },
        (ConstVal::Bool(a), ConstVal::Bool(b)) => match op {
            BinaryOp::Eq => Some(ConstVal::Bool(a == b)),
            BinaryOp::NEq => Some(ConstVal::Bool(a != b)),
            BinaryOp::And => Some(ConstVal::Bool(a && b)),
            BinaryOp::Or => Some(ConstVal::Bool(a || b)),
            _ => None,
        },
        (ConstVal::Int(a), ConstVal::Int(b)) => match op {
            BinaryOp::Eq => Some(ConstVal::Bool(a == b)),
            BinaryOp::NEq => Some(ConstVal::Bool(a != b)),
            BinaryOp::Gt => Some(ConstVal::Bool(a > b)),
            BinaryOp::GtE => Some(ConstVal::Bool(a >= b)),
            BinaryOp::Lt => Some(ConstVal::Bool(a < b)),
            BinaryOp::LtE => Some(ConstVal::Bool(a <= b)),
            BinaryOp::Add => match a.checked_add(b) {
                Some(c) => Some(ConstVal::Int(c)),
                None => None,
            },
            BinaryOp::Sub => match a.checked_sub(b) {
                Some(c) => Some(ConstVal::Int(c)),
                None => None,
            },
            BinaryOp::Mul => match a.checked_mul(b) {
                Some(c) => Some(ConstVal::Int(c)),
                None => None,
            },
            BinaryOp::Div => match a.checked_div(b) {
                Some(c) => Some(ConstVal::Int(c)),
                None => None,
            },
            BinaryOp::Mod => match a.checked_rem(b) {
                Some(c) => Some(ConstVal::Int(c)),
                None => None,
            },
            BinaryOp::And | BinaryOp::Or => None,
        },
        _ => None,
    }
}


/// A failure while lowering a program: a construct that the lowering cannot handle (one
/// the analyser lets through), or a limit reached.
#[derive(Debug)]
pub struct LowerError {
    pub message: String,
}

/// A lowering error with the message `message`.
fn lower_error(message: &str) -> (res: LowerError)
    ensures
        res.message@ == message@,
{
    LowerError { message: String::from_str(message) }
}

/// A lowering error whose message is `a`, `b` and `c` in turn.
fn lower_error3(a: &str, b: &str, c: &str) -> (res: LowerError)
    ensures
        res.message@ == a@ + b@ + c@,
{
    LowerError { message: concat3(a, b, c) }
}

/// The lowering of a program to three-address code, and what it keeps while lowering:
/// the types of variables and temporaries, struct layouts, enum variants, and the generic
/// and variadic functions still to be instantiated.
pub struct IRGen {
    pub code: Vec<Instruction>,
    temps: TempGen,
    labels: LabelGen,
    functions: FunctionGen,
    loop_exits: Vec<String>,
    pub analyser_constants: StrMap<(Type, Expr)>,
    pub evaluated_constants: StrMap<Value>,
    pub var_types: ScopedMap,
    pub struct_defs: StrMap<StructLayout>,
    pub struct_blueprints: StrMap<(Vec<String>, Vec<Parameter>)>,
    pub enum_defs: StrMap<IndexMap<String, i64>>,
    pub current_function: String,
    pub fn_blueprints: StrMap<Stmt>,
    /// The names of the instances of generic and variadic functions asked for so far.
    pub instantiated_fns: StrMap<()>,
    /// The instances still to be generated: the function's name, its type arguments and
    /// the types of its pack.
    pub deferred_instantiations: Vec<(String, Vec<Type>, Vec<Type>)>,
    pub current_substitutions: StrMap<Type>,
    pub var_aliases: Vec<StrMap<String>>,
    /// How many more named constants may be expanded one inside another.
    pub const_budget: usize,
}

impl IRGen {
    /// Every table binds each name once, and there is an outermost scope of variables.
    pub closed spec fn wf(&self) -> bool {
        &&& self.var_types.wf()
        &&& self.analyser_constants.wf()
        &&& self.evaluated_constants.wf()
        &&& self.struct_defs.wf()
        &&& self.struct_blueprints.wf()
        &&& self.enum_defs.wf()
        &&& self.fn_blueprints.wf()
        &&& self.instantiated_fns.wf()
        &&& self.current_substitutions.wf()
        &&& forall|i: int| 0 <= i < self.var_aliases@.len() ==> (#[trigger] self.var_aliases@[i]).wf()
        &&& forall|k: Seq<char>| #[trigger] self.fn_blueprints.has(k) ==> stmt_no_use(self.fn_blueprints.lookup(k)->0)
    }

    /// `self` is `before` with instructions added after those it had, and no more
    /// constant expansions to spare.
    pub closed spec fn extends(&self, before: &IRGen) -> bool {
        &&& before.code@.len() <= self.code@.len()
        &&& forall|i: int| 0 <= i < before.code@.len() ==> #[trigger] self.code@[i] == before.code@[i]
        &&& self.const_budget <= before.const_budget
        &&& self.current_function == before.current_function
    }

    /// The instructions generated so far.
    pub closed spec fn instrs(&self) -> Seq<Instruction> {
        self.code@
    }

    /// No type substitution is in force.
    pub closed spec fn substitutes_nothing(&self) -> bool {
        self.current_substitutions.entries@.len() == 0
    }

    /// `n` names a recorded enum.
    pub closed spec fn is_enum_name(&self, n: Seq<char>) -> bool {
        self.enum_defs.has(n)
    }

    /// The named constant `k` recorded: its type and its value.
    pub closed spec fn constant_of(&self, k: Seq<char>) -> Option<(Type, Expr)> {
        self.analyser_constants.lookup(k)
    }

    /// The generic struct `k` recorded: its parameters and fields.
    pub closed spec fn struct_blueprint_of(&self, k: Seq<char>) -> Option<(Vec<String>, Vec<Parameter>)> {
        self.struct_blueprints.lookup(k)
    }

    /// No instance of a generic or variadic function waits to be generated.
    pub closed spec fn nothing_deferred(&self) -> bool {
        self.deferred_instantiations@.len() == 0
    }

    /// Some loop is open, so that a `break` has a place to jump to.
    pub closed spec fn in_loop(&self) -> bool {
        self.loop_exits@.len() > 0
    }

    /// How many temporaries have been given out.
    pub closed spec fn temps_issued(&self) -> nat {
        self.temps.count()
    }

    /// The variable that the name `n` stands for where it is used: the name it is an alias
    /// of, else the variable of the current function, if one is recorded, else `n` itself.
    pub closed spec fn resolved_var(&self, n: Seq<char>) -> Seq<char> {
        match alias_in(self.var_aliases@, n) {
            Some(a) => a,
            None => if self.var_types.lookup(self.current_function@ + "::"@ + n) is Some {
                self.current_function@ + "::"@ + n
            } else {
                n
            },
        }
    }

    /// `self` and `o` resolve names alike: the same constants, aliases, variables and
    /// current function.
    pub closed spec fn same_env(&self, o: IRGen) -> bool {
        &&& self.analyser_constants == o.analyser_constants
        &&& self.var_aliases@ == o.var_aliases@
        &&& self.var_types == o.var_types
        &&& self.current_function == o.current_function
    }

    /// `self` and `o` resolve every name alike: the same constants, the same variables.
    pub closed spec fn resolves_alike(&self, o: IRGen) -> bool {
        &&& forall|k: Seq<char>| #[trigger] self.constant_of(k) == o.constant_of(k)
        &&& forall|n: Seq<char>| #[trigger] self.resolved_var(n) == o.resolved_var(n)
    }

    /// `self` resolves names as the body of the function `name` with the parameters
    /// `params` does when that function is declared at `o`: the constants and aliases of
    /// `o`, `name` as the current function, and a variable `name::n` known exactly when
    /// `o` knows it or `n` is a parameter with a type.
    pub closed spec fn entered_function(&self, o: IRGen, name: Seq<char>, params: Seq<Parameter>) -> bool {
        &&& self.analyser_constants == o.analyser_constants
        &&& self.var_aliases@ == o.var_aliases@
        &&& self.current_function@ == name
        &&& forall|n: Seq<char>| #[trigger] self.var_types.lookup(name + "::"@ + n) is Some <==> (o.var_types.lookup(
            name + "::"@ + n,
        ) is Some || typed_param(params, n))
    }

    /// `self` is `o` but for its code and its label counter.
    pub closed spec fn frame_same(&self, o: IRGen) -> bool {
        &&& self.temps == o.temps
        &&& self.functions == o.functions
        &&& self.loop_exits@ == o.loop_exits@
        &&& self.analyser_constants == o.analyser_constants
        &&& self.evaluated_constants == o.evaluated_constants
        &&& self.var_types == o.var_types
        &&& self.struct_defs == o.struct_defs
        &&& self.struct_blueprints == o.struct_blueprints
        &&& self.enum_defs == o.enum_defs
        &&& self.current_function == o.current_function
        &&& self.fn_blueprints == o.fn_blueprints
        &&& self.instantiated_fns == o.instantiated_fns
        &&& self.deferred_instantiations@ == o.deferred_instantiations@
        &&& self.current_substitutions == o.current_substitutions
        &&& self.var_aliases@ == o.var_aliases@
        &&& self.const_budget == o.const_budget
    }

    /// The exit labels of the open loops, outermost first.
    pub closed spec fn exit_labels(&self) -> Seq<Seq<char>> {
        self.loop_exits@.map_values(|l: String| l@)
    }

    /// How many functions have been lowered.
    pub closed spec fn functions_issued(&self) -> nat {
        self.functions.count()
    }

    /// How many labels have been given out.
    pub closed spec fn labels_issued(&self) -> nat {
        self.labels.count()
    }

    /// The label that a `break` jumps to: the exit of the innermost open loop.
    pub closed spec fn innermost_exit(&self) -> Seq<char> {
        self.loop_exits@.last()@
    }

    /// The variants recorded for the enum `n`, in order, with their numbers.
    pub closed spec fn enum_variants(&self, n: Seq<char>) -> Option<Seq<(Seq<char>, i64)>> {
        match self.enum_defs.lookup(n) {
            Some(m) => Some(variant_entries(m)),
            None => None,
        }
    }

    /// The name of the function being lowered; empty at the top level.
    pub closed spec fn function_name(&self) -> Seq<char> {
        self.current_function@
    }

    /// A generic or variadic function `name` is kept to be instantiated when called.
    pub closed spec fn has_blueprint(&self, name: Seq<char>) -> bool {
        self.fn_blueprints.lookup(name) is Some
    }

    /// How many more named constants may be expanded.
    pub closed spec fn budget(&self) -> nat {
        self.const_budget as nat
    }

    /// The type recorded for the temporary or variable `k`, if any.
    pub closed spec fn type_of_name(&self, k: Seq<char>) -> Option<TypeV> {
        self.var_types.lookup(k)
    }

    /// A lowering with no code, no declaration and one empty scope of variables.
    pub fn new() -> (res: Self)
        ensures
            res.wf(),
            res.instrs().len() == 0,
            res.nothing_deferred(),
            res.temps_issued() == 0,
            res.labels_issued() == 0,
            res.functions_issued() == 0,
            res.function_name().len() == 0,
            !res.in_loop(),
            res.substitutes_nothing(),
            res.budget() == usize::MAX,
            forall|k: Seq<char>| #[trigger] res.constant_of(k) is None,
            forall|k: Seq<char>| !(#[trigger] res.has_blueprint(k)),
            forall|k: Seq<char>| #[trigger] res.enum_variants(k) is None,
            forall|k: Seq<char>| #[trigger] res.resolved_var(k) == k,
            res.exit_labels().len() == 0,
    {
        let mut aliases: Vec<StrMap<String>> = Vec::new();
        aliases.push(StrMap::new());
        let r = IRGen {
            code: Vec::new(),
            temps: TempGen::new(),
            labels: LabelGen::new(),
            functions: FunctionGen::new(),
            loop_exits: Vec::new(),
            analyser_constants: StrMap::new(),
            evaluated_constants: StrMap::new(),
            var_types: ScopedMap::new(StrMap::new()),
            struct_defs: StrMap::new(),
            struct_blueprints: StrMap::new(),
            enum_defs: StrMap::new(),
            current_function: String::new(),
            fn_blueprints: StrMap::new(),
            instantiated_fns: StrMap::new(),
            deferred_instantiations: Vec::new(),
            current_substitutions: StrMap::new(),
            var_aliases: aliases,
            const_budget: usize::MAX,
        };
        proof {
            assert forall|k: Seq<char>| #[trigger] r.resolved_var(k) == k by {
                reveal_with_fuel(alias_in, 2);
                reveal_with_fuel(crate::ir::tac::scoped_lookup, 2);
                assert(!r.var_aliases@.last().has(k));
                assert(r.var_aliases@.last().lookup(k) is None);
                assert(alias_in(r.var_aliases@.drop_last(), k) is None);
                assert(r.var_aliases@.drop_last() =~= Seq::<StrMap<String>>::empty());
                assert(alias_in(r.var_aliases@, k) is None);
                let key = r.current_function@ + "::"@ + k;
                assert(!r.var_types.scopes@.last().has(key));
                assert(r.var_types.scopes@.last().lookup(key) is None);
                assert(r.var_types.scopes@.drop_last() =~= Seq::<StrMap<Type>>::empty());
                assert(r.var_types.lookup(key) is None);
            }
            assert(r.exit_labels() =~= Seq::<Seq<char>>::empty());
        }
        r
    }

    /// Records the named constant `name`, of type `ty`, whose value is `expr`: it is lowered
    /// where it is used.
    pub fn add_constant(&mut self, name: String, ty: Type, expr: Expr)
        requires
            old(self).wf(),
        ensures
            final(self).wf(),
            final(self).instrs() == old(self).instrs(),
            final(self).constant_of(name@) == Some((ty, expr)),
            final(self).nothing_deferred() == old(self).nothing_deferred(),
            final(self).functions_issued() == old(self).functions_issued(),
            forall|n: Seq<char>| n != name@ ==> final(self).constant_of(n) == old(self).constant_of(n),
            final(self).labels_issued() == old(self).labels_issued(),
            final(self).exit_labels() == old(self).exit_labels(),
    {
        self.analyser_constants.insert(name, (ty, expr));
    }

    /// Records the generic struct `name` with its parameters and fields, to be laid out for
    /// each set of arguments it is used with.
    pub fn add_struct_blueprint(&mut self, name: String, params: Vec<String>, fields: Vec<Parameter>)
        requires
            old(self).wf(),
        ensures
            final(self).wf(),
            final(self).instrs() == old(self).instrs(),
            final(self).struct_blueprint_of(name@) == Some((params, fields)),
            final(self).nothing_deferred() == old(self).nothing_deferred(),
            final(self).functions_issued() == old(self).functions_issued(),
            forall|n: Seq<char>| n != name@ ==> final(self).struct_blueprint_of(n) == old(self).struct_blueprint_of(n),
            final(self).labels_issued() == old(self).labels_issued(),
            final(self).exit_labels() == old(self).exit_labels(),
    {
        self.struct_blueprints.insert(name, (params, fields));
    }

    /// Takes the instructions generated so far, leaving none.
    pub fn take_code(&mut self) -> (res: Vec<Instruction>)
        requires
            old(self).wf(),
        ensures
            final(self).wf(),
            res@ == old(self).instrs(),
            final(self).instrs().len() == 0,
    {
        let mut out: Vec<Instruction> = Vec::new();
        std::mem::swap(&mut out, &mut self.code);
        out
    }

    /// Appends one instruction.
    fn push_code(&mut self, inst: Instruction)
        requires
            old(self).wf(),
        ensures
            final(self).wf(),
            final(self).extends(&*old(self)),
            final(self).code@ == old(self).code@.push(inst),
            final(self).var_types == old(self).var_types,
            final(self).struct_defs == old(self).struct_defs,
            final(self).temps == old(self).temps,
            final(self).labels == old(self).labels,
            final(self).frame_same(*old(self)),
    {
        self.code.push(inst);
        assert(self.code@.subrange(0, old(self).code@.len() as int) =~= old(self).code@);
    }

    /// The next temporary of the underlying counter, unless the counter is used up.
    fn raw_temp(&mut self) -> (res: Result<String, LowerError>)
        requires
            old(self).wf(),
        ensures
            final(self).wf(),
            final(self).extends(&*old(self)),
            final(self).code == old(self).code,
            final(self).var_types == old(self).var_types,
            final(self).struct_defs == old(self).struct_defs,
            final(self).current_function == old(self).current_function,
            res is Ok <==> old(self).temps.count() < usize::MAX,
            res is Ok ==> final(self).temps.count() == old(self).temps.count() + 1,
            res matches Ok(t) ==> t@ == temp_name(final(self).temps.count()),
    {
        if self.temps.issued() == usize::MAX {
            return Err(lower_error("Internal error: too many temporaries."));
        }
        let t = self.temps.next_temp();
        assert(self.code@.subrange(0, old(self).code@.len() as int) =~= old(self).code@);
        Ok(t)
    }

    /// The next label, unless the counter is used up.
    fn fresh_label(&mut self) -> (res: Result<String, LowerError>)
        requires
            old(self).wf(),
        ensures
            final(self).wf(),
            final(self).extends(&*old(self)),
            final(self).code == old(self).code,
            final(self).var_types == old(self).var_types,
            final(self).struct_defs == old(self).struct_defs,
            final(self).loop_exits == old(self).loop_exits,
            res is Ok <==> old(self).labels.count() < usize::MAX,
            res matches Ok(l) ==> l@ == label_name(final(self).labels.count())
                && final(self).labels.count() == old(self).labels.count() + 1,
            final(self).frame_same(*old(self)),
    {
        if self.labels.issued() == usize::MAX {
            return Err(lower_error("Internal error: too many labels."));
        }
        let l = self.labels.next_label();
        assert(self.code@.subrange(0, old(self).code@.len() as int) =~= old(self).code@);
        Ok(l)
    }

    /// A fresh temporary of type `ty`: named inside the current function, if there is
    /// one, and recorded with its type.
    pub fn next_temp_with_type(&mut self, ty: Type) -> (res: Result<String, LowerError>)
        requires
            old(self).wf(),
        ensures
            final(self).wf(),
            final(self).extends(&*old(self)),
            final(self).instrs() == old(self).instrs(),
            res is Ok <==> old(self).temps_issued() < usize::MAX,
            res is Ok ==> final(self).temps_issued() == old(self).temps_issued() + 1,
            res matches Ok(n) ==> final(self).type_of_name(n@) == Some(ty@) && n@ == (if old(self).function_name().len()
                == 0 {
                temp_name(final(self).temps_issued())
            } else {
                old(self).function_name() + "::"@ + temp_name(final(self).temps_issued())
            }),
    {
        let base_name = self.raw_temp()?;
        proof {
            reveal_strlit("");
            assert(""@ =~= Seq::<char>::empty());
            if self.current_function@.len() == 0 {
                assert(self.current_function@ =~= ""@);
            }
        }
        let qualified_name = if str_eq(self.current_function.as_str(), "") {
            base_name
        } else {
            concat3(self.current_function.as_str(), "::", base_name.as_str())
        };
        self.var_types.insert(qualified_name.clone(), ty);
        Ok(qualified_name)
    }

    /// The name a variable is lowered under: an alias from the innermost alias scope that
    /// has one, else the name inside the current function if that is a known variable,
    /// else the name itself.
    fn resolve_var_name(&self, name: &str) -> (res: String)
        requires
            self.wf(),
        ensures
            res@ == match alias_in(self.var_aliases@, name@) {
                Some(a) => a,
                None => if self.var_types.lookup(self.current_function@ + "::"@ + name@) is Some {
                    self.current_function@ + "::"@ + name@
                } else {
                    name@
                },
            },
    {
        let mut i = self.var_aliases.len();
        assert(self.var_aliases@.take(i as int) =~= self.var_aliases@);
        while i > 0
            invariant
                0 <= i <= self.var_aliases@.len(),
                self.wf(),
                alias_in(self.var_aliases@, name@) == alias_in(self.var_aliases@.take(i as int), name@),
            decreases i,
        {
            assert(self.var_aliases@.take(i as int).drop_last() =~= self.var_aliases@.take(i - 1));
            assert(self.var_aliases@.take(i as int).last() == self.var_aliases@[i - 1]);
            match self.var_aliases[i - 1].get(name) {
                Some(aliased) => {
                    return aliased.clone();
                },
                None => {},
            }
            i = i - 1;
        }
        let local_mangled = concat3(self.current_function.as_str(), "::", name);
        if self.var_types.get(local_mangled.as_str()).is_some() {
            return local_mangled;
        }
        String::from_str(name)
    }

    /// `ty` with the substitutions `substitutions` made: for a struct name or a generic
    /// parameter it binds. A generic parameter it does not bind, and a variadic pack, are
    /// errors.
    fn substitute_type(&self, ty: &Type, substitutions: &StrMap<Type>) -> (res: Result<Type, LowerError>)
        requires
            substitutions.wf(),
        ensures
            res is Ok <==> substitutable(ty@, *substitutions),
            res matches Ok(r) ==> r@ == subst_v(ty@, *substitutions),
        decreases ty,
    {
        match ty {
            Type::Struct(name) => match substitutions.get(name.as_str()) {
                Some(t) => Ok(clone_type(t)),
                None => Ok(Type::Struct(name.clone())),
            },
            Type::Ptr(inner) => {
                let t = self.substitute_type(inner, substitutions)?;
                Ok(Type::Ptr(Box::new(t)))
            },
            Type::Array { element_type, size } => {
                let t = self.substitute_type(element_type, substitutions)?;
                Ok(Type::Array { element_type: Box::new(t), size: *size })
            },
            Type::GenericInstance { name, args } => {
                let mut out: Vec<Type> = Vec::new();
                let mut i: usize = 0;
                while i < args.len()
                    invariant
                        0 <= i <= args@.len(),
                        substitutions.wf(),
                        *ty == (Type::GenericInstance { name: *name, args: *args }),
                        out@.len() == i,
                        forall|j: int| 0 <= j < i ==> #[trigger] out@[j]@ == subst_v(args@[j]@, *substitutions),
                        forall|j: int| 0 <= j < i ==> substitutable(#[trigger] args@[j]@, *substitutions),
                    decreases args.len() - i,
                {
                    proof {
                        assert(decreases_to!(ty => ty->GenericInstance_args));
                        assert(decreases_to!(ty->GenericInstance_args => ty->GenericInstance_args@));
                    }
                    let t = match self.substitute_type(&args[i], substitutions) {
                        Ok(t) => t,
                        Err(e) => {
                            proof {
                                lemma_types_view(args@);
                                lemma_all_substitutable(types_view(args@), *substitutions);
                                assert(!substitutable(types_view(args@)[i as int], *substitutions));
                            }
                            return Err(e);
                        },
                    };
                    out.push(t);
                    i = i + 1;
                }
                proof {
                    lemma_types_view(args@);
                    lemma_types_view(out@);
                    lemma_all_substitutable(types_view(args@), *substitutions);
                    lemma_subst_all(types_view(args@), *substitutions);
                    assert(types_view(out@) =~= subst_all(types_view(args@), *substitutions));
                    assert forall|j: int| 0 <= j < types_view(args@).len() implies #[trigger] substitutable(types_view(args@)[j], *substitutions) by {
                        assert(substitutable(args@[j]@, *substitutions));
                    }
                }
                Ok(Type::GenericInstance { name: name.clone(), args: out })
            },
            Type::GenericParam(name) => match substitutions.get(name.as_str()) {
                Some(t) => Ok(clone_type(t)),
                None => Err(lower_error3("Unresolved generic parameter: ", name.as_str(), "")),
            },
            Type::VariadicPack { .. } => Err(
                lower_error(
                    "ICE: VariadicPack reached substitute_type: it should have been resolved to a concrete __variadic__ struct before codegen substitution.",
                ),
            ),
            _ => Ok(clone_type(ty)),
        }
    }

    /// The mangled name of `ty`; a type holding a variadic pack has none.
    fn mangle_type(&self, ty: &Type) -> (res: Result<String, LowerError>)
        ensures
            res is Ok <==> no_pack(ty@),
            res matches Ok(m) ==> m@ == crate::utils::typesafe::mangled(ty@),
    {
        if !pack_free(ty) {
            return Err(lower_error("ICE: a variadic pack has no mangled name."));
        }
        Ok(type_to_mangled_string(ty))
    }

    /// The name of the instance of the generic struct `name` for the arguments `args`:
    /// the name followed by `__` and the mangled name of each argument.
    fn instance_name(&self, name: &str, args: &Vec<Type>) -> (res: Result<String, LowerError>)
        ensures
            res is Ok <==> all_no_pack(types_view(args@)),
            res matches Ok(m) ==> m@ == name@ + crate::utils::typesafe::mangled_suffix(types_view(args@)),
    {
        if !all_pack_free(args) {
            return Err(lower_error("ICE: a variadic pack has no mangled name."));
        }
        Ok(mangle_name(name, args.as_slice()))
    }

    /// The name a call is made under: the callee's name, `__` and each mangled type
    /// argument, then, for a variadic function, `.` and the mangled types of its pack
    /// joined by `__`.
    fn mangle_call_name(
        &self,
        base: &str,
        generic_args: &Vec<Type>,
        variadic_args: &Vec<Type>,
        is_variadic_capable: bool,
    ) -> (res: Result<String, LowerError>)
        ensures
            res is Ok <==> all_no_pack(types_view(generic_args@)) && (is_variadic_capable ==> all_no_pack(
                types_view(variadic_args@),
            )),
            res matches Ok(m) ==> all_no_pack(types_view(generic_args@)) && if is_variadic_capable {
                all_no_pack(types_view(variadic_args@)) && m@ == base@
                    + crate::utils::typesafe::mangled_suffix(types_view(generic_args@)) + "."@
                    + crate::utils::typesafe::mangled_joined(types_view(variadic_args@))
            } else {
                m@ == base@ + crate::utils::typesafe::mangled_suffix(types_view(generic_args@))
            },
    {
        let name = self.instance_name(base, generic_args)?;
        if is_variadic_capable {
            if !all_pack_free(variadic_args) {
                return Err(lower_error("ICE: a variadic pack has no mangled name."));
            }
            Ok(mangle_variadic(name.as_str(), variadic_args.as_slice()))
        } else {
            Ok(name)
        }
    }

    /// The layout of the struct `name`; failing that, the first layout recorded whose name
    /// is the part of `name` before its first `__`, or starts with that part and `__`.
    fn get_struct_layout(&self, name: &str) -> (res: Option<&StructLayout>)
        requires
            self.wf(),
        ensures
            self.struct_defs.has(name@) ==> (res matches Some(l) && self.struct_defs.lookup(name@) == Some(*l)),
    {
        match self.struct_defs.get(name) {
            Some(layout) => {
                return Some(layout);
            },
            None => {},
        }
        let base_name = prefix_before_separator(name);
        let with_sep = concat(base_name.as_str(), "__");
        let mut i: usize = 0;
        while i < self.struct_defs.entries.len()
            invariant
                0 <= i <= self.struct_defs.entries@.len(),
                !self.struct_defs.has(name@),
            decreases self.struct_defs.entries.len() - i,
        {
            let key = &self.struct_defs.entries[i].0;
            if str_eq(key.as_str(), base_name.as_str()) || starts_with(key.as_str(), with_sep.as_str()) {
                return Some(&self.struct_defs.entries[i].1);
            }
            i = i + 1;
        }
        None
    }

    /// The type of an operand: a temporary's or a variable's recorded type (`int` when
    /// none is), or the type of a constant.
    fn get_value_type(&self, value: &Value) -> (res: Type)
        requires
            self.wf(),
        ensures
            res@ == match value {
                Value::Temp(n) => match self.var_types.lookup(n@) {
                    Some(t) => t,
                    None => TypeV::Int,
                },
                Value::Var(n) => match self.var_types.lookup(n@) {
                    Some(t) => t,
                    None => TypeV::Int,
                },
                Value::Const(_) => TypeV::Int,
                Value::Double(_) => TypeV::Double,
                Value::Float(_) => TypeV::Float,
                Value::Bool(_) => TypeV::Bool,
                Value::Char(_) => TypeV::Char,
                Value::Nil => TypeV::Nil,
                Value::Str(_) => TypeV::Str,
                Value::Void => TypeV::Void,
            },
    {
        match value {
            Value::Temp(name) | Value::Var(name) => match self.var_types.get(name.as_str()) {
                Some(t) => clone_type(t),
                None => Type::Int,
            },
            Value::Const(_) => Type::Int,
            Value::Double(_) => Type::Double,
            Value::Float(_) => Type::Float,
            Value::Bool(_) => Type::Bool,
            Value::Char(_) => Type::Char,
            Value::Nil => Type::Nil,
            Value::Str(_) => Type::Str,
            Value::Void => Type::Void,
        }
    }
}

/// Whether lowering can make the substitutions `m` in `t`: it holds no variadic pack, and
/// every generic parameter in it is bound.
pub open spec fn substitutable(t: TypeV, m: StrMap<Type>) -> bool
    decreases t,
{
    match t {
        TypeV::GenericParam(n) => m.lookup(n) is Some,
        TypeV::VariadicPack { .. } => false,
        TypeV::Ptr(inner) => substitutable(*inner, m),
        TypeV::Array { element_type, .. } => substitutable(*element_type, m),
        TypeV::GenericInstance { args, .. } => all_substitutable(args, m),
        _ => true,
    }
}

/// `substitutable` holds of each of `s`.
pub open spec fn all_substitutable(s: Seq<TypeV>, m: StrMap<Type>) -> bool
    decreases s,
{
    if s.len() == 0 {
        true
    } else {
        substitutable(s[0], m) && all_substitutable(s.drop_first(), m)
    }
}

/// `all_substitutable` is `substitutable` of each element.
proof fn lemma_all_substitutable(s: Seq<TypeV>, m: StrMap<Type>)
    ensures
        all_substitutable(s, m) <==> forall|i: int| 0 <= i < s.len() ==> #[trigger] substitutable(s[i], m),
    decreases s.len(),
{
    if s.len() > 0 {
        lemma_all_substitutable(s.drop_first(), m);
        assert forall|i: int| 0 < i < s.len() implies s.drop_first()[i - 1] == s[i] by {}
        if forall|i: int| 0 <= i < s.len() ==> #[trigger] substitutable(s[i], m) {
            assert forall|i: int| 0 <= i < s.drop_first().len() implies #[trigger] substitutable(s.drop_first()[i], m) by {
                assert(substitutable(s[i + 1], m));
            }
            assert(substitutable(s[0], m));
            assert(all_substitutable(s, m));
        }
        if all_substitutable(s, m) {
            assert forall|i: int| 0 <= i < s.len() implies #[trigger] substitutable(s[i], m) by {
                if i > 0 {
                    assert(substitutable(s.drop_first()[i - 1], m));
                }
            }
        }
    }
}

/// The alias of `k` in the innermost of `scopes` that has one.
pub open spec fn alias_in(scopes: Seq<StrMap<String>>, k: Seq<char>) -> Option<Seq<char>>
    decreases scopes.len(),
{
    if scopes.len() == 0 {
        None
    } else {
        match scopes.last().lookup(k) {
            Some(a) => Some(a@),
            None => alias_in(scopes.drop_last(), k),
        }
    }
}

/// The part of `s` before its first `__` (all of `s` when it has none).
fn prefix_before_separator(s: &str) -> (res: String)
    ensures
        res@ == before_separator(s@, 0),
{
    let cs = chars_of(s);
    let mut out: Vec<char> = Vec::new();
    let mut i: usize = 0;
    while i < cs.len() && !(cs[i] == '_' && i + 1 < cs.len() && cs[i + 1] == '_')
        invariant
            0 <= i <= cs@.len(),
            cs@ == s@,
            out@ == cs@.subrange(0, i as int),
            before_separator(s@, 0) == before_separator(s@, i as int),
        decreases cs.len() - i,
    {
        out.push(cs[i]);
        assert(out@ =~= cs@.subrange(0, i + 1));
        i = i + 1;
    }
    crate::utils::text::string_from_chars(&out)
}

/// Whether `s` begins with `p`.
fn starts_with(s: &str, p: &str) -> (res: bool)
    ensures
        res == (p@.len() <= s@.len() && s@.subrange(0, p@.len() as int) == p@),
{
    let sc = chars_of(s);
    let pc = chars_of(p);
    if pc.len() > sc.len() {
        return false;
    }
    let mut i: usize = 0;
    while i < pc.len()
        invariant
            0 <= i <= pc@.len(),
            pc@.len() <= sc@.len(),
            sc@ == s@,
            pc@ == p@,
            forall|j: int| 0 <= j < i ==> sc@[j] == pc@[j],
        decreases pc.len() - i,
    {
        if sc[i] != pc[i] {
            return false;
        }
        i = i + 1;
    }
    assert(s@.subrange(0, p@.len() as int) =~= p@);
    true
}


/// The size and the alignment in bytes of a value of the scalar type `t`.
pub open spec fn scalar_layout(t: TypeV) -> Option<(int, int)> {
    match t {
        TypeV::Enum(_) | TypeV::Int | TypeV::UInt | TypeV::Double | TypeV::Str | TypeV::Ptr(_) | TypeV::Any => Some(
            (8, 8),
        ),
        TypeV::Float => Some((4, 4)),
        TypeV::Int8 | TypeV::UInt8 | TypeV::Bool | TypeV::Char => Some((1, 1)),
        _ => None,
    }
}

/// The size in bytes of a value of the scalar type `t`.
pub open spec fn scalar_size(t: TypeV) -> int {
    match scalar_layout(t) {
        Some((size, _)) => size,
        None => 0,
    }
}

/// The alignment in bytes of a value of the scalar type `t`.
pub open spec fn scalar_align(t: TypeV) -> int {
    match scalar_layout(t) {
        Some((_, align)) => align,
        None => 1,
    }
}

/// Each of `ts` is a scalar type.
pub open spec fn scalar_types(ts: Seq<TypeV>) -> bool {
    forall|k: int| 0 <= k < ts.len() ==> #[trigger] scalar_layout(ts[k]) is Some
}

/// The fields `o`, each with its offset and scalar type, are laid out in order from
/// offset 0: each at a multiple of its alignment and past the end of the one before;
/// `alignment` is the largest alignment of a field, 1 if there is none.
pub open spec fn aligned_fields(o: Seq<(Seq<char>, (i64, TypeV))>, alignment: int) -> bool {
    &&& forall|k: int| 0 <= k < o.len() ==> #[trigger] scalar_layout(o[k].1.1) is Some
    &&& forall|k: int| 0 <= k < o.len() ==> 0 <= #[trigger] o[k].1.0 && (o[k].1.0 as int) % scalar_align(o[k].1.1) == 0
    &&& forall|k: int| 0 <= k < o.len() - 1 ==> #[trigger] o[k].1.0 + scalar_size(o[k].1.1) <= o[k + 1].1.0
    &&& forall|k: int| 0 <= k < o.len() ==> #[trigger] scalar_align(o[k].1.1) <= alignment
    &&& alignment == 1 || exists|k: int| 0 <= k < o.len() && #[trigger] scalar_align(o[k].1.1) == alignment
}

/// The fields `o` are laid out as `aligned_fields` says, and `total` is a multiple of
/// `alignment` that reaches past the end of the last field.
pub open spec fn aligned_layout(o: Seq<(Seq<char>, (i64, TypeV))>, alignment: int, total: int) -> bool {
    &&& aligned_fields(o, alignment)
    &&& total % alignment == 0
    &&& o.len() > 0 ==> o[o.len() - 1].1.0 + scalar_size(o[o.len() - 1].1.1) <= total
}

/// Rounding `s - m` up to the alignment `m + 1`, for an alignment of 1, 4 or 8, gives a
/// multiple of it no smaller than `s - m` and no larger than `s`.
proof fn lemma_align_up(s: i64, m: i64)
    requires
        m == 0 || m == 3 || m == 7,
        m <= s <= 0x1_0000_0000_0000 + m,
    ensures
        ((s & !m) as int) % (m + 1) == 0,
        s - m <= (s & !m) <= s,
{
    if m == 0 {
        assert((s & !m) == s) by (bit_vector)
            requires
                m == 0,
        ;
    } else if m == 3 {
        assert((s & !m) % 4 == 0 && s - 3 <= (s & !m) <= s) by (bit_vector)
            requires
                m == 3,
                3 <= s <= 0x1_0000_0000_0003,
        ;
    } else {
        assert((s & !m) % 8 == 0 && s - 7 <= (s & !m) <= s) by (bit_vector)
            requires
                m == 7,
                7 <= s <= 0x1_0000_0000_0007,
        ;
    }
}

/// `offset` rounded as the lowering rounds it to the alignment `align`:
/// `(offset + align - 1) & !(align - 1)`, where that does not overflow.
fn align_up(offset: i64, align: i64) -> (res: Result<i64, LowerError>)
    ensures
        match res {
            Ok(v) => i64::MIN < align && i64::MIN <= offset + (align - 1) <= i64::MAX && v == (((offset + (
            align - 1)) as i64) & !((align - 1) as i64)),
            Err(_) => align == i64::MIN || offset + (align - 1) < i64::MIN || offset + (align - 1) > i64::MAX,
        },
{
    let a1 = match align.checked_sub(1) {
        Some(v) => v,
        None => {
            return Err(lower_error("Internal error: an alignment is out of range."));
        },
    };
    let sum = match offset.checked_add(a1) {
        Some(v) => v,
        None => {
            return Err(lower_error("Internal error: a struct is too large to lay out."));
        },
    };
    Ok(sum & !a1)
}

/// A lowering at `a` extends one at `c` when it extends one at `b` that extends `c`.
proof fn lemma_extends_trans(a: IRGen, b: IRGen, c: IRGen)
    requires
        a.extends(&b),
        b.extends(&c),
    ensures
        a.extends(&c),
{
    assert(a.code@.subrange(0, c.code@.len() as int) =~= a.code@.subrange(0, b.code@.len() as int).subrange(
        0,
        c.code@.len() as int,
    ));
}

/// Code grown from a state whose code and constant budget are those of `o` is grown from
/// `o` too, whatever function each is lowering.
proof fn lemma_extends_back(a: IRGen, mid: IRGen, o: IRGen)
    requires
        a.extends(&mid),
        mid.code@ == o.code@,
        mid.const_budget <= o.const_budget,
    ensures
        o.code@.len() <= a.code@.len(),
        forall|i: int| 0 <= i < o.code@.len() ==> #[trigger] a.code@[i] == o.code@[i],
        a.const_budget <= o.const_budget,
{
    assert forall|i: int| 0 <= i < o.code@.len() implies #[trigger] a.code@[i] == o.code@[i] by {
        assert(a.code@[i] == mid.code@[i]);
    }
}

/// A lowering extends itself.
proof fn lemma_extends_refl(a: IRGen)
    ensures
        a.extends(&a),
{
    assert(a.code@.subrange(0, a.code@.len() as int) =~= a.code@);
}

impl IRGen {
    /// The size in bytes of a value of type `ty`. A generic parameter, a variadic pack,
    /// a struct with no layout and an overflowing array are errors.
    fn type_size(&self, ty: &Type) -> (res: Result<i64, LowerError>)
        requires
            self.wf(),
        ensures
            match ty {
                Type::Enum(_) | Type::Int | Type::UInt | Type::Double | Type::Str | Type::Ptr(_)
                | Type::Any => res == Ok::<i64, LowerError>(8),
                Type::Float => res == Ok::<i64, LowerError>(4),
                Type::Int8 | Type::UInt8 | Type::Bool | Type::Char => res == Ok::<i64, LowerError>(1),
                Type::Void | Type::Nil => res == Ok::<i64, LowerError>(0),
                Type::GenericParam(_) | Type::VariadicPack { .. } => res is Err,
                Type::Struct(n) => self.struct_defs.has(n@) ==> res == Ok::<i64, LowerError>(
                    self.struct_defs.lookup(n@)->0.total_size,
                ),
                _ => true,
            },
        decreases ty, 0int,
    {
        match ty {
            Type::Enum(_) | Type::Int | Type::UInt | Type::Double => Ok(8),
            Type::Float => Ok(4),
            Type::Int8 | Type::UInt8 => Ok(1),
            Type::Bool => Ok(1),
            Type::Str => Ok(8),
            Type::Ptr(_) => Ok(8),
            Type::Array { element_type, size } => {
                let e = self.element_size(element_type)?;
                if (*size as u64) > (i64::MAX as u64) {
                    return Err(lower_error("Internal error: an array is too large to lay out."));
                }
                match e.checked_mul(*size as i64) {
                    Some(v) => Ok(v),
                    None => Err(lower_error("Internal error: an array is too large to lay out.")),
                }
            },
            Type::GenericParam(name) => Err(
                lower_error3("Cannot get size of unresolved generic parameter: ", name.as_str(), ""),
            ),
            Type::Char => Ok(1),
            Type::Struct(name) => match self.get_struct_layout(name.as_str()) {
                Some(l) => Ok(l.total_size),
                None => Err(lower_error3("Failed to find layout for struct: ", name.as_str(), "")),
            },
            Type::GenericInstance { name, args } => {
                let mangled_name = self.instance_name(name.as_str(), args)?;
                match self.get_struct_layout(mangled_name.as_str()) {
                    Some(l) => Ok(l.total_size),
                    None => Err(
                        lower_error3("Failed to find layout for generic instance: ", mangled_name.as_str(), ""),
                    ),
                }
            },
            Type::VariadicPack { .. } => Err(
                lower_error(
                    "ICE: VariadicPack reached type_size: it should have been resolved to a concrete __variadic__ struct before size queries.",
                ),
            ),
            Type::Void | Type::Nil => Ok(0),
            Type::Any => Ok(8),
        }
    }

    /// The size of an element of type `ty`: its size.
    fn element_size(&self, ty: &Type) -> (res: Result<i64, LowerError>)
        requires
            self.wf(),
        ensures
            match ty {
                Type::Enum(_) | Type::Int | Type::UInt | Type::Double | Type::Str | Type::Ptr(_)
                | Type::Any => res == Ok::<i64, LowerError>(8),
                Type::Float => res == Ok::<i64, LowerError>(4),
                Type::Int8 | Type::UInt8 | Type::Bool | Type::Char => res == Ok::<i64, LowerError>(1),
                Type::Void | Type::Nil => res == Ok::<i64, LowerError>(0),
                Type::GenericParam(_) | Type::VariadicPack { .. } => res is Err,
                Type::Struct(n) => self.struct_defs.has(n@) ==> res == Ok::<i64, LowerError>(
                    self.struct_defs.lookup(n@)->0.total_size,
                ),
                _ => true,
            },
        decreases ty, 1int,
    {
        self.type_size(ty)
    }

    /// The alignment in bytes of a value of type `ty`; an array is aligned as its
    /// elements are. A generic parameter, a variadic pack and a struct with no layout are
    /// errors.
    fn type_alignment(&self, ty: &Type) -> (res: Result<i64, LowerError>)
        requires
            self.wf(),
        ensures
            match ty {
                Type::Enum(_) | Type::Int | Type::UInt | Type::Double | Type::Str | Type::Ptr(_)
                | Type::Any => res == Ok::<i64, LowerError>(8),
                Type::Float => res == Ok::<i64, LowerError>(4),
                Type::Int8 | Type::UInt8 | Type::Bool | Type::Char => res == Ok::<i64, LowerError>(1),
                Type::Void | Type::Nil => res == Ok::<i64, LowerError>(0),
                Type::GenericParam(_) | Type::VariadicPack { .. } => res is Err,
                _ => true,
            },
        decreases ty,
    {
        match ty {
            Type::Enum(_) | Type::Int | Type::UInt | Type::Double => Ok(8),
            Type::Float => Ok(4),
            Type::Int8 | Type::UInt8 => Ok(1),
            Type::Bool => Ok(1),
            Type::GenericParam(name) => Err(
                lower_error3("Cannot get alignment of unresolved generic parameter: ", name.as_str(), ""),
            ),
            Type::Char => Ok(1),
            Type::Str => Ok(8),
            Type::Ptr(_) => Ok(8),
            Type::Array { element_type, .. } => self.type_alignment(element_type),
            Type::Struct(name) => match self.get_struct_layout(name.as_str()) {
                Some(l) => Ok(l.alignment),
                None => Err(lower_error3("Failed to find layout for struct: ", name.as_str(), "")),
            },
            Type::GenericInstance { name, args } => {
                let mangled_name = self.instance_name(name.as_str(), args)?;
                match self.get_struct_layout(mangled_name.as_str()) {
                    Some(l) => Ok(l.alignment),
                    None => Err(
                        lower_error3("Failed to find layout for generic instance: ", mangled_name.as_str(), ""),
                    ),
                }
            },
            Type::VariadicPack { .. } => Err(
                lower_error(
                    "ICE: VariadicPack reached type_alignment: it should have been resolved to a concrete __variadic__ struct before alignment queries.",
                ),
            ),
            Type::Void | Type::Nil => Ok(0),
            Type::Any => Ok(8),
        }
    }

    /// `ty` made concrete: with the current substitutions made (again, as long as they
    /// change it), a struct name that names an enum as that enum, and each generic
    /// instance as the struct of its instance, whose layout is made the first time it is
    /// needed.
    pub fn resolve_type(&mut self, ty: &Type) -> (res: Result<Type, LowerError>)
        requires
            old(self).wf(),
        ensures
            final(self).wf(),
            final(self).extends(&*old(self)),
            final(self).instrs() == old(self).instrs(),
            old(self).substitutes_nothing() ==> match ty {
                Type::Struct(n) => res matches Ok(r) && r@ == (if old(self).is_enum_name(n@) {
                    TypeV::Enum(n@)
                } else {
                    TypeV::Struct(n@)
                }),
                Type::GenericInstance { .. } => res matches Ok(r) ==> r@ is Struct,
                Type::Ptr(_) => res matches Ok(r) ==> r@ is Ptr,
                Type::Array { size, .. } => res matches Ok(r) ==> (r@ matches TypeV::Array { size: s, .. } && s == size),
                _ => res matches Ok(r) && r@ == ty@,
            },
            ty@ is Int || ty@ is Bool || ty@ is Str || ty@ is Char ==> (res matches Ok(r) && r@ == ty@),
            ty@ is Int || ty@ is Bool || ty@ is Str || ty@ is Char ==> *final(self) == *old(self),
    {
        self.resolve_within(ty, usize::MAX)
    }

    /// `resolve_type`, with at most `fuel` steps one inside another.
    fn resolve_within(&mut self, ty: &Type, fuel: usize) -> (res: Result<Type, LowerError>)
        requires
            old(self).wf(),
        ensures
            final(self).wf(),
            final(self).extends(&*old(self)),
            final(self).code == old(self).code,
            fuel > 0 && old(self).substitutes_nothing() ==> match ty {
                Type::Struct(n) => res matches Ok(r) && r@ == (if old(self).is_enum_name(n@) {
                    TypeV::Enum(n@)
                } else {
                    TypeV::Struct(n@)
                }),
                Type::GenericInstance { .. } => res matches Ok(r) ==> r@ is Struct,
                Type::Ptr(_) => res matches Ok(r) ==> r@ is Ptr,
                Type::Array { size, .. } => res matches Ok(r) ==> (r@ matches TypeV::Array { size: s, .. } && s == size),
                _ => res matches Ok(r) && r@ == ty@,
            },
            fuel > 0 && (ty@ is Int || ty@ is Bool || ty@ is Str || ty@ is Char) ==> (res matches Ok(r) && r@ == ty@),
            fuel > 0 && (ty@ is Int || ty@ is Bool || ty@ is Str || ty@ is Char) ==> *final(self) == *old(self),
        decreases fuel, 1int,
    {
        proof {
            lemma_extends_refl(*self);
        }
        if fuel == 0 {
            return Err(lower_error("Internal error: types nest too deeply to resolve."));
        }
        let substituted = if self.current_substitutions.entries.len() > 0 {
            self.substitute_type(ty, &self.current_substitutions)?
        } else {
            clone_type(ty)
        };
        if !type_eq(&substituted, ty) {
            return self.resolve_within(&substituted, fuel - 1);
        }
        match substituted {
            Type::Struct(name) => {
                if self.enum_defs.contains_key(name.as_str()) {
                    Ok(Type::Enum(name))
                } else {
                    Ok(Type::Struct(name))
                }
            },
            Type::GenericInstance { name, args } => {
                let mut resolved_args: Vec<Type> = Vec::new();
                let mut i: usize = 0;
                while i < args.len()
                    invariant
                        0 <= i <= args@.len(),
                        self.wf(),
                        self.extends(&*old(self)),
                        self.code == old(self).code,
                        fuel > 0,
                        ty@ is GenericInstance,
                    decreases args.len() - i,
                {
                    let ghost prev = *self;
                    let r = self.resolve_within(&args[i], fuel - 1)?;
                    proof {
                        lemma_extends_trans(*self, prev, *old(self));
                    }
                    resolved_args.push(r);
                    i = i + 1;
                }
                let mangled_name = self.instance_name(name.as_str(), &resolved_args)?;
                if !self.struct_defs.contains_key(mangled_name.as_str()) {
                    let blueprint = match self.struct_blueprints.get(name.as_str()) {
                        Some(bp) => Some((duplicate_strings(&bp.0), duplicate_params(&bp.1))),
                        None => None,
                    };
                    if let Some((params, fields)) = blueprint {
                        let mut substitutions: StrMap<Type> = StrMap::new();
                        let mut j: usize = 0;
                        while j < params.len() && j < resolved_args.len()
                            invariant
                                substitutions.wf(),
                            decreases params.len() - j,
                        {
                            substitutions.insert(params[j].clone(), clone_type(&resolved_args[j]));
                            j = j + 1;
                        }
                        let ghost prev = *self;
                        self.instantiate_struct_layout(mangled_name.clone(), &fields, &substitutions, fuel - 1)?;
                        proof {
                            lemma_extends_trans(*self, prev, *old(self));
                        }
                    }
                }
                Ok(Type::Struct(mangled_name))
            },
            Type::Ptr(inner) => {
                let r = self.resolve_within(&inner, fuel - 1)?;
                Ok(Type::Ptr(Box::new(r)))
            },
            Type::Array { element_type, size } => {
                let r = self.resolve_within(&element_type, fuel - 1)?;
                Ok(Type::Array { element_type: Box::new(r), size })
            },
            other => Ok(other),
        }
    }

    /// Records the layout of the struct `mangled_name` with the fields `fields`, their
    /// types substituted and resolved: each field at the next offset aligned for it, the
    /// whole aligned for its most aligned field.
    fn instantiate_struct_layout(
        &mut self,
        mangled_name: String,
        fields: &Vec<Parameter>,
        substitutions: &StrMap<Type>,
        fuel: usize,
    ) -> (res: Result<(), LowerError>)
        requires
            old(self).wf(),
            substitutions.wf(),
        ensures
            final(self).wf(),
            final(self).extends(&*old(self)),
            final(self).code == old(self).code,
            res is Ok ==> final(self).struct_defs.has(mangled_name@),
            fuel > 0 && fields@.len() == 0 ==> (res is Ok && (final(self).struct_defs.lookup(mangled_name@) matches Some(l)
                && l.total_size == 0 && l.alignment == 1)),
        decreases fuel, 0int,
    {
        proof {
            lemma_extends_refl(*self);
        }
        if fuel == 0 {
            return Err(lower_error("Internal error: types nest too deeply to resolve."));
        }
        let mut current_offset: i64 = 0;
        let mut max_alignment: i64 = 1;
        let mut field_offsets = new_offset_map();
        let mut i: usize = 0;
        while i < fields.len()
            invariant
                0 <= i <= fields@.len(),
                self.wf(),
                self.extends(&*old(self)),
                self.code == old(self).code,
                substitutions.wf(),
                fuel > 0,
                distinct_keys(offset_entries(field_offsets)),
                i == 0 ==> current_offset == 0 && max_alignment == 1,
            decreases fields.len() - i,
        {
            let field = &fields[i];
            let base_type = match &field.ptype {
                Some(t) => clone_type(t),
                None => Type::Int,
            };
            let substituted = self.substitute_type(&base_type, substitutions)?;
            let ghost prev = *self;
            let field_type = self.resolve_within(&substituted, fuel - 1)?;
            proof {
                lemma_extends_trans(*self, prev, *old(self));
            }
            let field_size = self.type_size(&field_type)?;
            let field_align = self.type_alignment(&field_type)?;
            if field_align > max_alignment {
                max_alignment = field_align;
            }
            current_offset = align_up(current_offset, field_align)?;
            insert_offset(&mut field_offsets, field.name.value.clone(), current_offset, field_type);
            current_offset = match current_offset.checked_add(field_size) {
                Some(v) => v,
                None => {
                    return Err(lower_error("Internal error: a struct is too large to lay out."));
                },
            };
            i = i + 1;
        }
        proof {
            assert((0i64 & !0i64) == 0i64) by (bit_vector);
        }
        let total_size = align_up(current_offset, max_alignment)?;
        self.struct_defs.insert(
            mangled_name,
            StructLayout { total_size, alignment: max_alignment, field_offsets },
        );
        Ok(())
    }

    /// Records, unless it is there already, the layout of the struct `struct_name` that a
    /// pack of arguments of types `arg_types` is passed as: the fields that
    /// `variadic::structure` gives it, laid out in order.
    fn instantiate_variadic_struct(&mut self, struct_name: &str, arg_types: &Vec<Type>, location: Location) -> (res:
        Result<(), LowerError>)
        requires
            old(self).wf(),
        ensures
            final(self).wf(),
            final(self).extends(&*old(self)),
            final(self).code == old(self).code,
            res is Ok ==> final(self).struct_defs.has(struct_name@),
            old(self).struct_defs.has(struct_name@) ==> res is Ok && *final(self) == *old(self),
            !old(self).struct_defs.has(struct_name@) ==> (res is Ok ==> (final(self).struct_defs.lookup(
                struct_name@,
            ) matches Some(layout) && same_fields(
                offset_entries(layout.field_offsets),
                variadic::pack_entries(types_view(arg_types@)),
            ))),
            !old(self).struct_defs.has(struct_name@) && scalar_types(types_view(arg_types@)) && arg_types@.len()
                < 0x1000_0000 ==> (res is Ok && (final(self).struct_defs.lookup(struct_name@) matches Some(layout)
                && aligned_layout(offset_entries(layout.field_offsets), layout.alignment as int, layout.total_size as int))),
    {
        proof {
            lemma_extends_refl(*self);
        }
        if self.struct_defs.contains_key(struct_name) {
            return Ok(());
        }
        let signature = variadic::structure(arg_types.as_slice(), location);
        let ghost pack = variadic::pack_entries(types_view(arg_types@));
        let mut offset: i64 = 0;
        let mut max_align: i64 = 1;
        let mut field_offsets = new_offset_map();
        let count = field_count(&signature.fields);
        let ghost good = scalar_types(types_view(arg_types@)) && arg_types@.len() < 0x1000_0000;
        proof {
            crate::parse::parsing::lemma_types_view(arg_types@);
            assert(pack.len() == types_view(arg_types@).len() + 1);
            if good {
                assert forall|k: int| 0 <= k < pack.len() implies #[trigger] scalar_layout(pack[k].1) is Some by {
                    if k < types_view(arg_types@).len() {
                        assert(pack[k].1 == types_view(arg_types@)[k]);
                    }
                }
            }
        }
        let mut i: usize = 0;
        while i < count
            invariant
                0 <= i <= count,
                count == field_entries(signature.fields).len(),
                self.wf(),
                distinct_keys(offset_entries(field_offsets)),
                !old(self).struct_defs.has(struct_name@),
                pack == field_entries(signature.fields),
                pack == variadic::pack_entries(types_view(arg_types@)),
                same_fields(offset_entries(field_offsets), pack.take(i as int)),
                good ==> forall|k: int| 0 <= k < pack.len() ==> #[trigger] scalar_layout(pack[k].1) is Some,
                good == (scalar_types(types_view(arg_types@)) && arg_types@.len() < 0x1000_0000),
                good ==> count <= 0x1000_0001,
                good ==> 0 <= offset <= 16 * i && (max_align == 1 || max_align == 4 || max_align == 8),
                good ==> aligned_fields(offset_entries(field_offsets), max_align as int),
                good ==> (i > 0 ==> offset == offset_entries(field_offsets)[i - 1].1.0 + scalar_size(
                    offset_entries(field_offsets)[i - 1].1.1,
                )),
            decreases count - i,
        {
            let (field_name, ty) = field_at(&signature.fields, i);
            let ghost before = offset_entries(field_offsets);
            proof {
                let tv = types_view(arg_types@);
                assert forall|j: int| 0 <= j < before.len() implies before[j].0 != pack[i as int].0 by {
                    assert(before[j].0 == pack.take(i as int)[j].0);
                    if i < tv.len() {
                        lemma_pack_field_names_distinct(j as nat, i as nat);
                    } else {
                        lemma_pack_field_names_distinct(j as nat, 0);
                    }
                }
                assert(key_position(before, field_name@) is None);
            }
            let size = self.type_size(ty)?;
            let align = self.type_alignment(ty)?;
            let ghost prev_offset = offset;
            let ghost prev_max = max_align;
            let ghost e0 = offset_entries(field_offsets);
            proof {
                if good {
                    assert(ty@ == pack[i as int].1);
                    assert(scalar_layout(ty@) is Some);
                    assert(size == scalar_size(ty@) && align == scalar_align(ty@));
                    assert(align == 1 || align == 4 || align == 8);
                    assert(0 <= size <= 8);
                    assert(i < count);
                    assert(offset <= 16 * i);
                    assert(offset + (align - 1) <= 16 * 0x1000_0001 + 7);
                }
            }
            if align > max_align {
                max_align = align;
            }
            offset = align_up(offset, align)?;
            proof {
                if good {
                    lemma_align_up((prev_offset + (align - 1)) as i64, (align - 1) as i64);
                }
            }
            proof {
                if good {
                    assert(offset <= prev_offset + 7);
                    assert(offset + size <= 16 * (i + 1));
                }
            }
            insert_offset(&mut field_offsets, field_name.clone(), offset, clone_type(ty));
            proof {
                assert(pack.take(i + 1) =~= pack.take(i as int).push(pack[i as int]));
                if good {
                    let e1 = offset_entries(field_offsets);
                    assert(e1 == e0.push((field_name@, (offset, ty@))));
                    assert forall|k: int| 0 <= k < e1.len() - 1 implies #[trigger] e1[k].1.0 + scalar_size(
                        e1[k].1.1,
                    ) <= e1[k + 1].1.0 by {
                        if k + 1 < e0.len() {
                            assert(e1[k] == e0[k] && e1[k + 1] == e0[k + 1]);
                        } else {
                            assert(e1[k] == e0[k]);
                        }
                    }
                    assert forall|k: int| 0 <= k < e1.len() implies #[trigger] scalar_align(e1[k].1.1)
                        <= max_align by {
                        if k < e0.len() {
                            assert(e1[k] == e0[k]);
                        }
                    }
                    assert forall|k: int| 0 <= k < e1.len() implies 0 <= #[trigger] e1[k].1.0 && (e1[k].1.0 as int)
                        % scalar_align(e1[k].1.1) == 0 by {
                        if k < e0.len() {
                            assert(e1[k] == e0[k]);
                        }
                    }
                    assert forall|k: int| 0 <= k < e1.len() implies #[trigger] scalar_layout(e1[k].1.1) is Some by {
                        if k < e0.len() {
                            assert(e1[k] == e0[k]);
                        }
                    }
                    if max_align != 1 {
                        if max_align == prev_max {
                            let k = choose|k: int| 0 <= k < e0.len() && #[trigger] scalar_align(e0[k].1.1) == prev_max;
                            assert(e1[k] == e0[k]);
                            assert(scalar_align(e1[k].1.1) == max_align);
                        } else {
                            assert(scalar_align(e1[e0.len() as int].1.1) == max_align);
                        }
                    }
                }
            }
            offset = match offset.checked_add(size) {
                Some(v) => v,
                None => {
                    return Err(lower_error("Internal error: a struct is too large to lay out."));
                },
            };
            i = i + 1;
        }
        let ghost last_end = offset;
        let total_size = align_up(offset, max_align)?;
        proof {
            assert(pack.take(count as int) =~= pack);
            if good {
                lemma_align_up((last_end + (max_align - 1)) as i64, (max_align - 1) as i64);
            }
        }
        self.struct_defs.insert(
            String::from_str(struct_name),
            StructLayout { total_size, alignment: max_align, field_offsets },
        );
        Ok(())
    }

    /// Appends `dst = lhs op rhs` for a fresh temporary `dst`, typed `str` for arithmetic
    /// on a string, `int` for other arithmetic, `bool` for a comparison; gives `dst`.
    fn emit_binary(&mut self, op: IrOp, lhs: Value, rhs: Value) -> (res: Result<Value, LowerError>)
        requires
            old(self).wf(),
        ensures
            final(self).wf(),
            res is Ok <==> old(self).temps_issued() < usize::MAX,
            final(self).extends(&*old(self)),
            res matches Ok(v) ==> v matches Value::Temp(d) && final(self).code@.len() == old(self).code@.len() + 1
                && final(self).code@.last().view() == (crate::ir::tac::InstructionV::Binary {
                    dst: d@,
                    op,
                    lhs: lhs.view(),
                    rhs: rhs.view(),
                }),
    {
        let lhs_ty = self.get_value_type(&lhs);
        let rhs_ty = self.get_value_type(&rhs);
        let result_ty = match op {
            IrOp::Add | IrOp::Sub | IrOp::Mul | IrOp::Div | IrOp::Mod => {
                if matches!(lhs_ty, Type::Str) || matches!(rhs_ty, Type::Str) {
                    Type::Str
                } else {
                    Type::Int
                }
            },
            IrOp::Eq | IrOp::NEq | IrOp::Gt | IrOp::GtE | IrOp::Lt | IrOp::LtE => Type::Bool,
            _ => Type::Int,
        };
        let ghost start = *self;
        let temp = self.next_temp_with_type(result_ty)?;
        let ghost mid = *self;
        self.push_code(Instruction::Binary { dst: temp.clone(), op, lhs, rhs });
        proof {
            lemma_extends_trans(*self, mid, start);
        }
        Ok(Value::Temp(temp))
    }

    /// Appends `dst = op value` for a fresh temporary `dst`, typed as `value` for a sign,
    /// a pointer to it for `&`, `int` otherwise; gives `dst`.
    fn emit_unary(&mut self, op: IrOp, value: Value) -> (res: Result<Value, LowerError>)
        requires
            old(self).wf(),
        ensures
            final(self).wf(),
            res is Ok <==> old(self).temps_issued() < usize::MAX,
            final(self).extends(&*old(self)),
            res matches Ok(v) ==> v matches Value::Temp(d) && final(self).code@.len() == old(self).code@.len() + 1
                && final(self).code@.last().view() == (crate::ir::tac::InstructionV::Unary {
                    dst: d@,
                    op,
                    value: value.view(),
                }),
    {
        let inner_ty = self.get_value_type(&value);
        let result_ty = match op {
            IrOp::Pos | IrOp::Neg => inner_ty,
            IrOp::Ref => Type::Ptr(Box::new(inner_ty)),
            _ => Type::Int,
        };
        let ghost start = *self;
        let temp = self.next_temp_with_type(result_ty)?;
        let ghost mid = *self;
        self.push_code(Instruction::Unary { dst: temp.clone(), op, value });
        proof {
            lemma_extends_trans(*self, mid, start);
        }
        Ok(Value::Temp(temp))
    }

    /// Whether an operand is a string constant.
    fn is_string_valued(&self, value: &Value) -> (res: bool)
        ensures
            res == (value is Str),
    {
        matches!(value, Value::Str(_))
    }
}



/// The element type that indexing a value of type `t` gives: an array's element type, the
/// pointee of a pointer (the element type of a pointed-to array), `char` for a string,
/// `int` otherwise.
pub open spec fn indexed_element_v(t: Option<TypeV>) -> TypeV {
    match t {
        Some(TypeV::Array { element_type, .. }) => *element_type,
        Some(TypeV::Ptr(inner)) => match *inner {
            TypeV::Array { element_type, .. } => *element_type,
            other => other,
        },
        Some(TypeV::Str) => TypeV::Char,
        _ => TypeV::Int,
    }
}

/// The value of an optional type.
pub open spec fn opt_type_v(t: Option<Type>) -> Option<TypeV> {
    match t {
        Some(x) => Some(x@),
        None => None,
    }
}

/// The element type that indexing a value of type `t` gives.
pub fn indexed_element_type(t: &Option<Type>) -> (res: Type)
    ensures
        res@ == indexed_element_v(opt_type_v(*t)),
{
    let r = match t {
        Some(x) => match x {
            Type::Array { element_type, .. } => clone_type(element_type),
            Type::Ptr(inner) => match &**inner {
                Type::Array { element_type, .. } => {
                    let r = clone_type(element_type);
                    assert((**inner)@ matches TypeV::Array { element_type: e, .. } && *e == r@);
                    r
                },
                other => clone_type(other),
            },
            Type::Str => Type::Char,
            _ => Type::Int,
        },
        None => Type::Int,
    };
    r
}

/// The size in bytes of an integer type (`int`, `uint`: 8; `int8`, `uint8`: 1).
pub open spec fn int_size_v(t: TypeV) -> int {
    match t {
        TypeV::Int8 | TypeV::UInt8 => 1,
        _ => 8,
    }
}

/// Whether `t` is one of the integer types a cast converts between.
pub open spec fn cast_int_v(t: TypeV) -> bool {
    t is Int || t is UInt || t is Int8 || t is UInt8
}

/// How a cast from `from` to `to` converts: pointers keep their bits, integers widen or
/// narrow by size, `float` and `double` extend or truncate, integers and floating-point
/// numbers convert; anything else keeps its bits.
pub open spec fn cast_kind_v(from: TypeV, to: TypeV) -> CastType {
    if from is Ptr && (to is Ptr || to is Str) {
        CastType::BitCast
    } else if cast_int_v(from) && cast_int_v(to) {
        if int_size_v(from) < int_size_v(to) {
            CastType::Extend
        } else if int_size_v(from) > int_size_v(to) {
            CastType::Truncate
        } else {
            CastType::BitCast
        }
    } else if from is Float && to is Double {
        CastType::FloatExtend
    } else if from is Double && to is Float {
        CastType::FloatTruncate
    } else if cast_int_v(from) && (to is Float || to is Double) {
        CastType::IntToFloat
    } else if (from is Float || from is Double) && cast_int_v(to) {
        CastType::FloatToInt
    } else {
        CastType::BitCast
    }
}

/// How a cast from `from` to `to` converts.
pub fn cast_kind(from: &Type, to: &Type) -> (res: CastType)
    ensures
        res == cast_kind_v(from@, to@),
{
    let from_int = matches!(from, Type::Int | Type::UInt | Type::Int8 | Type::UInt8);
    let to_int = matches!(to, Type::Int | Type::UInt | Type::Int8 | Type::UInt8);
    if matches!(from, Type::Ptr(_)) && matches!(to, Type::Ptr(_) | Type::Str) {
        CastType::BitCast
    } else if from_int && to_int {
        let from_size: u8 = if matches!(from, Type::Int8 | Type::UInt8) {
            1
        } else {
            8
        };
        let to_size: u8 = if matches!(to, Type::Int8 | Type::UInt8) {
            1
        } else {
            8
        };
        if from_size < to_size {
            CastType::Extend
        } else if from_size > to_size {
            CastType::Truncate
        } else {
            CastType::BitCast
        }
    } else if matches!(from, Type::Float) && matches!(to, Type::Double) {
        CastType::FloatExtend
    } else if matches!(from, Type::Double) && matches!(to, Type::Float) {
        CastType::FloatTruncate
    } else if from_int && matches!(to, Type::Float | Type::Double) {
        CastType::IntToFloat
    } else if matches!(from, Type::Float | Type::Double) && to_int {
        CastType::FloatToInt
    } else {
        CastType::BitCast
    }
}

/// The three-address operation of a binary operator.
pub open spec fn binary_ir_op(op: BinaryOp) -> IrOp {
    match op {
        BinaryOp::Add => IrOp::Add,
        BinaryOp::Sub => IrOp::Sub,
        BinaryOp::Mul => IrOp::Mul,
        BinaryOp::Div => IrOp::Div,
        BinaryOp::Eq => IrOp::Eq,
        BinaryOp::NEq => IrOp::NEq,
        BinaryOp::Gt => IrOp::Gt,
        BinaryOp::GtE => IrOp::GtE,
        BinaryOp::And => IrOp::And,
        BinaryOp::Or => IrOp::Or,
        BinaryOp::Lt => IrOp::Lt,
        BinaryOp::LtE => IrOp::LtE,
        BinaryOp::Mod => IrOp::Mod,
    }
}

/// The three-address operation of a binary operator.
fn ir_op_of(op: BinaryOp) -> (res: IrOp)
    ensures
        res == binary_ir_op(op),
{
    match op {
        BinaryOp::Add => IrOp::Add,
        BinaryOp::Sub => IrOp::Sub,
        BinaryOp::Mul => IrOp::Mul,
        BinaryOp::Div => IrOp::Div,
        BinaryOp::Eq => IrOp::Eq,
        BinaryOp::NEq => IrOp::NEq,
        BinaryOp::Gt => IrOp::Gt,
        BinaryOp::GtE => IrOp::GtE,
        BinaryOp::And => IrOp::And,
        BinaryOp::Or => IrOp::Or,
        BinaryOp::Lt => IrOp::Lt,
        BinaryOp::LtE => IrOp::LtE,
        BinaryOp::Mod => IrOp::Mod,
    }
}

/// The value of a literal that needs no code (an array literal does).
pub open spec fn literal_value_v(l: Literal) -> ValueV {
    match l {
        Literal::Int(v) => ValueV::Const(v),
        Literal::Double(d) => ValueV::Double(d),
        Literal::Float(f) => ValueV::Float(f),
        Literal::String(s) => ValueV::Str(s@),
        Literal::Bool(b) => ValueV::Bool(b),
        Literal::Nil => ValueV::Nil,
        Literal::Char(c) => ValueV::Char(c),
        Literal::Arr { .. } => ValueV::Void,
    }
}

/// Whether `t` is a comparison, which gives a `bool`.
pub open spec fn is_comparison(op: BinaryOp) -> bool {
    op is Eq || op is NEq || op is Gt || op is GtE || op is Lt || op is LtE
}

impl IRGen {
    /// The constant that an expression folds to, if it does: a literal of an integer, a
    /// string, a character or a boolean; `typeof` of an expression whose type is known;
    /// a binary operation whose two sides fold and that `fold_const` folds.
    pub fn eval_const(&self, expr: &Expr) -> (res: Option<ConstVal>)
        requires
            self.wf(),
        ensures
            match expr.kind {
                ExprKind::Literal(Literal::Int(i)) => res == Some(ConstVal::Int(i)),
                ExprKind::Literal(Literal::Char(c)) => res == Some(ConstVal::Char(c)),
                ExprKind::Literal(Literal::Bool(b)) => res == Some(ConstVal::Bool(b)),
                ExprKind::Literal(Literal::String(s)) => res matches Some(ConstVal::Str(t)) && t@ == s@,
                ExprKind::Literal(_) => res is None,
                ExprKind::Typeof { .. } => res is None || res matches Some(ConstVal::Str(_)),
                ExprKind::Binary { op, .. } => match res {
                    Some(c) => exists|a: ConstValV, b: ConstValV| fold_v(op, a, b) == Some(c.view()),
                    None => true,
                },
                _ => res is None,
            },
            pure_const(*expr) matches Some(x) ==> match x {
                Some(c) => res matches Some(r) && r.view() == c,
                None => res is None,
            },
        decreases expr,
    {
        match &expr.kind {
            ExprKind::Literal(lit) => match lit {
                Literal::Int(i) => Some(ConstVal::Int(*i)),
                Literal::String(s) => Some(ConstVal::Str(s.clone())),
                Literal::Char(c) => Some(ConstVal::Char(*c)),
                Literal::Bool(b) => Some(ConstVal::Bool(*b)),
                _ => None,
            },
            ExprKind::Typeof { expr: inner } => match self.type_of_expr(inner) {
                Some(ty) => Some(ConstVal::Str(typeof_string(&ty))),
                None => None,
            },
            ExprKind::Binary { left, op, right } => {
                let l = match self.eval_const(left) {
                    Some(v) => v,
                    None => {
                        return None;
                    },
                };
                let r = match self.eval_const(right) {
                    Some(v) => v,
                    None => {
                        return None;
                    },
                };
                let ghost lv = l.view();
                let ghost rv = r.view();
                let res = fold_const(*op, l, r);
                proof {
                    if res is Some {
                        assert(fold_v(*op, lv, rv) == Some(res->0.view()));
                    }
                }
                res
            },
            _ => None,
        }
    }

    /// The type of an expression as far as the recorded types tell it, without making
    /// anything: literals, variables, casts, operators, `typeof`, enum variants and
    /// fields of structs with a layout.
    pub fn type_of_expr(&self, expr: &Expr) -> (res: Option<Type>)
        requires
            self.wf(),
        ensures
            match expr.kind {
                ExprKind::Literal(Literal::Int(_)) => res matches Some(t) && t@ == TypeV::Int,
                ExprKind::Literal(Literal::String(_)) => res matches Some(t) && t@ == TypeV::Str,
                ExprKind::Literal(Literal::Bool(_)) => res matches Some(t) && t@ == TypeV::Bool,
                ExprKind::Literal(Literal::Char(_)) => res matches Some(t) && t@ == TypeV::Char,
                ExprKind::Literal(Literal::Nil) => res matches Some(t) && t@ == TypeV::Nil,
                ExprKind::Cast { right, .. } => res matches Some(t) && t@ == right@,
                ExprKind::Typeof { .. } => res matches Some(t) && t@ == TypeV::Str,
                ExprKind::Binary { op, .. } => (is_comparison(op) || op is And || op is Or) ==> (res matches Some(t)
                    && t@ == TypeV::Bool),
                ExprKind::Unary { op: UnaryOp::Not, .. } => res matches Some(t) && t@ == TypeV::Bool,
                ExprKind::Call { .. } | ExprKind::Index { .. } | ExprKind::StructLiteral { .. }
                | ExprKind::Sizeof { .. } => res is None,
                _ => true,
            },
        decreases expr,
    {
        match &expr.kind {
            ExprKind::Literal(lit) => match lit {
                Literal::Int(_) => Some(Type::Int),
                Literal::String(_) => Some(Type::Str),
                Literal::Double(_) => Some(Type::Double),
                Literal::Float(_) => Some(Type::Float),
                Literal::Char(_) => Some(Type::Char),
                Literal::Bool(_) => Some(Type::Bool),
                Literal::Nil => Some(Type::Nil),
                Literal::Arr { elements } => {
                    if elements.len() == 0 {
                        return None;
                    }
                    proof {
                        let l = expr.kind->Literal_0;
                        assert(decreases_to!(expr => expr.kind));
                        assert(decreases_to!(expr.kind => l));
                        assert(decreases_to!(l => l->Arr_elements));
                        assert(decreases_to!(l->Arr_elements => l->Arr_elements@));
                    }
                    let elem_type = self.type_of_expr(&elements[0])?;
                    Some(Type::Array { element_type: Box::new(elem_type), size: elements.len() })
                },
            },
            ExprKind::Identifier(name) => {
                let resolved = self.resolve_var_name(name.as_str());
                match self.var_types.get(resolved.as_str()) {
                    Some(ty) => {
                        return Some(clone_type(ty));
                    },
                    None => {},
                }
                match self.var_types.get(name.as_str()) {
                    Some(ty) => Some(clone_type(ty)),
                    None => None,
                }
            },
            ExprKind::Cast { right, .. } => Some(clone_type(right)),
            ExprKind::Binary { op, left, .. } => match op {
                BinaryOp::Eq | BinaryOp::NEq | BinaryOp::Gt | BinaryOp::GtE | BinaryOp::Lt
                | BinaryOp::LtE | BinaryOp::And | BinaryOp::Or => Some(Type::Bool),
                _ => self.type_of_expr(left),
            },
            ExprKind::Unary { op, expr: inner } => match op {
                UnaryOp::Not => Some(Type::Bool),
                UnaryOp::AddressOf => {
                    let inner_ty = self.type_of_expr(inner)?;
                    Some(Type::Ptr(Box::new(inner_ty)))
                },
                UnaryOp::Deref => match self.type_of_expr(inner) {
                    Some(Type::Ptr(inner_ty)) => Some(*inner_ty),
                    _ => None,
                },
                _ => self.type_of_expr(inner),
            },
            ExprKind::Typeof { .. } => Some(Type::Str),
            ExprKind::Field { base, field } => {
                if let ExprKind::Identifier(enum_name) = &base.kind {
                    if self.enum_defs.contains_key(enum_name.as_str()) {
                        return Some(Type::Enum(enum_name.clone()));
                    }
                }
                let base_ty = self.type_of_expr(base)?;
                let struct_name = match base_ty {
                    Type::Struct(name) => name,
                    Type::GenericInstance { name, args } => match self.instance_name(name.as_str(), &args) {
                        Ok(m) => m,
                        Err(_) => {
                            return None;
                        },
                    },
                    _ => {
                        return None;
                    },
                };
                match self.struct_defs.get(struct_name.as_str()) {
                    Some(layout) => match offset_get(&layout.field_offsets, field.as_str()) {
                        Some(entry) => Some(clone_type(&entry.1)),
                        None => None,
                    },
                    None => None,
                }
            },
            _ => None,
        }
    }

    /// The type of an expression, resolved, as the lowering needs it; `None` where it is
    /// not known (a call among them).
    pub fn expr_type(&mut self, expr: &Expr) -> (res: Result<Option<Type>, LowerError>)
        requires
            old(self).wf(),
        ensures
            final(self).wf(),
            final(self).extends(&*old(self)),
            final(self).instrs() == old(self).instrs(),
            match expr.kind {
                ExprKind::Cast { right, .. } => res matches Ok(Some(t)) && t@ == right@,
                ExprKind::Sizeof { .. } => res matches Ok(Some(t)) && t@ == TypeV::Int,
                ExprKind::Typeof { .. } => res matches Ok(Some(t)) && t@ == TypeV::Str,
                ExprKind::Literal(Literal::String(_)) => res matches Ok(Some(t)) && t@ == TypeV::Str,
                ExprKind::Literal(Literal::Int(_)) => res matches Ok(Some(t)) && t@ == TypeV::Int,
                ExprKind::Literal(Literal::Bool(_)) => res matches Ok(Some(t)) && t@ == TypeV::Bool,
                ExprKind::Literal(Literal::Char(_)) => res matches Ok(Some(t)) && t@ == TypeV::Char,
                ExprKind::Literal(Literal::Nil) => res matches Ok(Some(t)) && t@ == TypeV::Nil,
                ExprKind::Binary { op, .. } => is_comparison(op) ==> (res matches Ok(Some(t)) && t@
                    == TypeV::Bool),
                ExprKind::Call { .. } => res matches Ok(None),
                ExprKind::StructLiteral { struct_name, .. } => res matches Ok(Some(t)) && t@ == TypeV::Struct(
                    struct_name@,
                ),
                _ => true,
            },
            expr.kind matches ExprKind::Literal(l) && !(l is Arr) ==> *final(self) == *old(self),
            expr.kind matches ExprKind::Identifier(n) ==> (old(self).type_of_name(old(self).function_name() + "::"@ + n@)
                == Some(TypeV::Str) ==> (res matches Ok(Some(t)) && t@ == TypeV::Str && *final(self) == *old(self))),
        decreases expr,
    {
        proof {
            lemma_extends_refl(*self);
        }
        match &expr.kind {
            ExprKind::Cast { right, .. } => Ok(Some(clone_type(right))),
            ExprKind::Sizeof { .. } => Ok(Some(Type::Int)),
            ExprKind::Typeof { .. } => Ok(Some(Type::Str)),
            ExprKind::Literal(Literal::String(_)) => Ok(Some(Type::Str)),
            ExprKind::Literal(Literal::Int(_)) => Ok(Some(Type::Int)),
            ExprKind::Literal(Literal::Float(_)) => Ok(Some(Type::Float)),
            ExprKind::Literal(Literal::Double(_)) => Ok(Some(Type::Double)),
            ExprKind::Literal(Literal::Nil) => Ok(Some(Type::Nil)),
            ExprKind::Literal(Literal::Bool(_)) => Ok(Some(Type::Bool)),
            ExprKind::Literal(Literal::Char(_)) => Ok(Some(Type::Char)),
            ExprKind::Literal(Literal::Arr { elements }) => {
                if elements.len() > 0 {
                    proof {
                        let l = expr.kind->Literal_0;
                        assert(decreases_to!(expr => expr.kind));
                        assert(decreases_to!(expr.kind => l));
                        assert(decreases_to!(l => l->Arr_elements));
                        assert(decreases_to!(l->Arr_elements => l->Arr_elements@));
                    }
                    let element_type = match self.expr_type(&elements[0])? {
                        Some(t) => t,
                        None => {
                            return Ok(None);
                        },
                    };
                    Ok(Some(Type::Array { element_type: Box::new(element_type), size: elements.len() }))
                } else {
                    Ok(Some(Type::Array { element_type: Box::new(Type::Int), size: 0 }))
                }
            },
            ExprKind::Identifier(name) => {
                let local_mangled = concat3(self.current_function.as_str(), "::", name.as_str());
                let local = match self.var_types.get(local_mangled.as_str()) {
                    Some(t) => Some(clone_type(t)),
                    None => None,
                };
                if let Some(ty) = local {
                    let r = self.resolve_type(&ty)?;
                    return Ok(Some(r));
                }
                let constant = match self.analyser_constants.get(name.as_str()) {
                    Some(c) => Some(clone_type(&c.0)),
                    None => None,
                };
                if let Some(ty) = constant {
                    let r = self.resolve_type(&ty)?;
                    return Ok(Some(r));
                }
                let global = match self.var_types.get(name.as_str()) {
                    Some(t) => Some(clone_type(t)),
                    None => None,
                };
                if let Some(ty) = global {
                    let r = self.resolve_type(&ty)?;
                    return Ok(Some(r));
                }
                Ok(None)
            },
            ExprKind::Binary { left, op, .. } => match op {
                BinaryOp::Eq | BinaryOp::NEq | BinaryOp::Gt | BinaryOp::GtE | BinaryOp::Lt
                | BinaryOp::LtE => Ok(Some(Type::Bool)),
                _ => self.expr_type(left),
            },
            ExprKind::Call { .. } => Ok(None),
            ExprKind::Index { base, .. } => match self.expr_type(base)? {
                Some(Type::Array { element_type, .. }) => Ok(Some(*element_type)),
                Some(Type::Str) => Ok(Some(Type::Char)),
                Some(Type::Ptr(inner)) => match *inner {
                    Type::Array { element_type, .. } => Ok(Some(*element_type)),
                    other => Ok(Some(other)),
                },
                _ => Ok(None),
            },
            ExprKind::Unary { op, expr: inner_expr } => {
                let inner_type = match self.expr_type(inner_expr)? {
                    Some(t) => t,
                    None => {
                        return Ok(None);
                    },
                };
                match op {
                    UnaryOp::AddressOf => Ok(Some(Type::Ptr(Box::new(inner_type)))),
                    UnaryOp::Deref => match inner_type {
                        Type::Ptr(inner) => Ok(Some(*inner)),
                        _ => Ok(None),
                    },
                    UnaryOp::Positive | UnaryOp::Negative => Ok(Some(Type::Int)),
                    UnaryOp::Not => Ok(Some(Type::Bool)),
                }
            },
            ExprKind::Field { base, field } => {
                if let Some(base_ty) = self.expr_type(base)? {
                    let resolved = self.resolve_type(&base_ty)?;
                    let struct_name = match resolved {
                        Type::Struct(name) => Some(name),
                        Type::GenericInstance { name, args } => Some(self.instance_name(name.as_str(), &args)?),
                        _ => None,
                    };
                    if let Some(name) = struct_name {
                        let found = match self.get_struct_layout(name.as_str()) {
                            Some(layout) => match offset_get(&layout.field_offsets, field.as_str()) {
                                Some(entry) => Some(clone_type(&entry.1)),
                                None => None,
                            },
                            None => None,
                        };
                        if let Some(field_ty) = found {
                            let r = self.resolve_type(&field_ty)?;
                            return Ok(Some(r));
                        }
                    }
                }
                Ok(None)
            },
            ExprKind::StructLiteral { struct_name, .. } => Ok(Some(Type::Struct(struct_name.clone()))),
        }
    }
}


impl IRGen {
    /// Appends `dst = &value` for a fresh temporary `dst` typed as a pointer to
    /// `pointee`; gives `dst`.
    fn emit_ref(&mut self, pointee: Type, value: Value) -> (res: Result<String, LowerError>)
        requires
            old(self).wf(),
        ensures
            final(self).wf(),
            res is Ok <==> old(self).temps_issued() < usize::MAX,
            res is Ok ==> final(self).extends(&*old(self)),
            res matches Ok(d) ==> final(self).code@.len() == old(self).code@.len() + 1
                && final(self).code@.last().view() == (InstructionV::Unary {
                    dst: d@,
                    op: IrOp::Ref,
                    value: value.view(),
                }),
    {
        let temp = self.next_temp_with_type(Type::Ptr(Box::new(pointee)))?;
        self.push_code(Instruction::Unary { dst: temp.clone(), op: IrOp::Ref, value });
        Ok(temp)
    }

    /// Appends `dst = base + offset` for a fresh temporary `dst` typed as a pointer to
    /// `pointee`; gives `dst`.
    fn emit_offset(&mut self, pointee: Type, base: Value, offset: Value) -> (res: Result<String, LowerError>)
        requires
            old(self).wf(),
        ensures
            final(self).wf(),
            res is Ok <==> old(self).temps_issued() < usize::MAX,
            res is Ok ==> final(self).extends(&*old(self)),
            res matches Ok(d) ==> final(self).code@.len() == old(self).code@.len() + 1
                && final(self).code@.last().view() == (InstructionV::Binary {
                    dst: d@,
                    op: IrOp::Add,
                    lhs: base.view(),
                    rhs: offset.view(),
                }),
    {
        let temp = self.next_temp_with_type(Type::Ptr(Box::new(pointee)))?;
        self.push_code(Instruction::Binary { dst: temp.clone(), op: IrOp::Add, lhs: base, rhs: offset });
        Ok(temp)
    }

    /// Appends `dst = value * stride` for a fresh `int` temporary `dst`; gives `dst`.
    fn emit_scaled(&mut self, value: Value, stride: i64) -> (res: Result<String, LowerError>)
        requires
            old(self).wf(),
        ensures
            final(self).wf(),
            res is Ok <==> old(self).temps_issued() < usize::MAX,
            res is Ok ==> final(self).extends(&*old(self)),
            res matches Ok(d) ==> final(self).code@.len() == old(self).code@.len() + 1
                && final(self).code@.last().view() == (InstructionV::Binary {
                    dst: d@,
                    op: IrOp::Mul,
                    lhs: value.view(),
                    rhs: ValueV::Const(stride),
                }),
    {
        let temp = self.next_temp_with_type(Type::Int)?;
        self.push_code(Instruction::Binary { dst: temp.clone(), op: IrOp::Mul, lhs: value, rhs: Value::Const(stride) });
        Ok(temp)
    }

    /// Appends `dst = load ty from ptr` for a fresh temporary `dst` of type `ty`; gives
    /// `dst`.
    fn emit_load(&mut self, ty: Type, ptr: Value) -> (res: Result<String, LowerError>)
        requires
            old(self).wf(),
        ensures
            final(self).wf(),
            res is Ok <==> old(self).temps_issued() < usize::MAX,
            res is Ok ==> final(self).extends(&*old(self)),
            res matches Ok(d) ==> final(self).code@.len() == old(self).code@.len() + 1
                && final(self).code@.last().view() == (InstructionV::Load { dst: d@, ptr: ptr.view(), ty: ty@ }),
    {
        let temp = self.next_temp_with_type(clone_type(&ty))?;
        self.push_code(Instruction::Load { dst: temp.clone(), ptr, ty });
        Ok(temp)
    }

    /// A fresh variable `prefix` + a fresh temporary's name, recorded with type `ty`.
    fn anon_var(&mut self, prefix: &str, ty: Type) -> (res: Result<String, LowerError>)
        requires
            old(self).wf(),
        ensures
            final(self).wf(),
            res is Ok ==> final(self).extends(&*old(self)),
            final(self).code == old(self).code,
            res is Ok <==> old(self).temps_issued() < usize::MAX,
            res matches Ok(n) ==> n@ == prefix@ + temp_name(final(self).temps_issued())
                && final(self).type_of_name(n@) == Some(ty@),
    {
        let raw = self.raw_temp()?;
        let name = concat(prefix, raw.as_str());
        self.var_types.insert(name.clone(), ty);
        Ok(name)
    }

    /// The struct a field is taken from, given the type of the value it is taken from:
    /// the resolved struct, or the instance a generic instance names. Anything else is an
    /// error whose message is `message` and the type.
    fn struct_name_for(&mut self, base_type: &Type, message: &str) -> (res: Result<String, LowerError>)
        requires
            old(self).wf(),
        ensures
            final(self).wf(),
            res is Ok ==> final(self).extends(&*old(self)),
            final(self).code@ == old(self).code@,
            old(self).substitutes_nothing() ==> match base_type {
                Type::Struct(n) => if old(self).is_enum_name(n@) {
                    res is Err
                } else {
                    res matches Ok(r) && r@ == n@
                },
                Type::GenericInstance { .. } => true,
                Type::Ptr(_) | Type::Array { .. } => res is Err,
                _ => res matches Err(e) && e.message@ == message@ + type_text(base_type@),
            },
    {
        proof {
            reveal_strlit("");
        }
        let resolved = self.resolve_type(base_type)?;
        match resolved {
            Type::Struct(name) => Ok(name),
            Type::GenericInstance { name, args } => self.instance_name(name.as_str(), &args),
            _ => {
                let t = type_to_string(base_type);
                Err(lower_error3(message, t.as_str(), ""))
            },
        }
    }

    /// The offset and type of the field `field` of the struct `struct_name`: `None` when
    /// the struct has no layout (looked up by `get_struct_layout` when `fallback`), `Some(None)`
    /// when the layout has no such field.
    fn field_slot(&self, struct_name: &str, field: &str, fallback: bool) -> (res: Option<Option<(i64, Type)>>)
        requires
            self.wf(),
        ensures
            !fallback || self.struct_defs.has(struct_name@) ==> match self.struct_defs.lookup(struct_name@) {
                Some(l) => match key_lookup(offset_entries(l.field_offsets), field@) {
                    Some(e) => res matches Some(Some(s)) && s.0 == e.0 && s.1@ == e.1,
                    None => res == Some(None::<(i64, Type)>),
                },
                None => res is None,
            },
    {
        let layout = if fallback {
            self.get_struct_layout(struct_name)
        } else {
            self.struct_defs.get(struct_name)
        };
        match layout {
            Some(l) => match offset_get(&l.field_offsets, field) {
                Some(entry) => Some(Some((entry.0, clone_type(&entry.1)))),
                None => Some(None),
            },
            None => None,
        }
    }

    /// The address of the place an expression names: a variable's address; the pointer
    /// itself for `*p`; the base's address plus the field's offset for a field; the
    /// base's address plus the index times the element size for an index.
    fn gen_lvalue_addr(&mut self, expr: &Expr) -> (res: Result<Value, LowerError>)
        requires
            old(self).wf(),
        ensures
            final(self).wf(),
            res is Ok ==> final(self).extends(&*old(self)),
            expr.kind is Identifier ==> (res matches Ok(v) ==> v matches Value::Temp(d) && final(self).instrs().last().view()
                matches InstructionV::Unary { dst, op: IrOp::Ref, .. } && dst == d@),
            expr.kind matches ExprKind::Identifier(n) ==> ((res is Ok <==> old(self).temps_issued() < usize::MAX) && (
            res matches Ok(v) ==> v matches Value::Temp(d) && final(self).instrs() == old(self).instrs().push(
                final(self).instrs().last(),
            ) && final(self).instrs().last().view() == (InstructionV::Unary {
                dst: d@,
                op: IrOp::Ref,
                value: ValueV::Var(old(self).resolved_var(n@)),
            }))),
            expr.kind is Field || expr.kind is Index ==> (res matches Ok(v) ==> v matches Value::Temp(d) && final(
                self).instrs().last().view() matches InstructionV::Binary { dst, op: IrOp::Add, .. } && dst == d@),
            expr.kind is Field ==> (res is Ok ==> final(self).instrs().last().view() matches InstructionV::Binary {
                rhs: ValueV::Const(_),
                ..
            }),
            expr.kind is Index ==> (res is Ok ==> final(self).instrs().len() >= old(self).instrs().len() + 2 && exists|
                d1: Seq<char>,
                iv: ValueV,
                stride: i64,
                b: ValueV,
            |
                #![trigger scaled_index(d1, iv, stride, b)]
                scaled_index(d1, iv, stride, b) == (d1, iv, stride, b)
                    && final(self).instrs()[final(self).instrs().len() - 2].view() == (InstructionV::Binary {
                    dst: d1,
                    op: IrOp::Mul,
                    lhs: iv,
                    rhs: ValueV::Const(stride),
                }) && (final(self).instrs().last().view() matches InstructionV::Binary { op: IrOp::Add, lhs, rhs, .. }
                    && lhs == b && rhs == ValueV::Temp(d1))),
            !(expr.kind is Identifier || expr.kind is Field || expr.kind is Index || expr.kind matches ExprKind::Unary {
                op: UnaryOp::Deref,
                ..
            }) ==> (res matches Err(e) && e.message@ == "Cannot take address of this expression."@),
        decreases old(self).budget(), expr, 0int,
    {
        match &expr.kind {
            ExprKind::Identifier(name) => {
                let resolved_name = self.resolve_var_name(name.as_str());
                let ty = match self.var_types.get(resolved_name.as_str()) {
                    Some(t) => clone_type(t),
                    None => Type::Int,
                };
                let temp = self.emit_ref(ty, Value::Var(resolved_name))?;
                Ok(Value::Temp(temp))
            },
            ExprKind::Unary { op: UnaryOp::Deref, expr: inner } => self.gen_expr(inner, None),
            ExprKind::Field { base, field } => {
                let base_addr = self.gen_lvalue_addr(base)?;
                let base_type = match self.expr_type(base)? {
                    Some(t) => t,
                    None => Type::Int,
                };
                let struct_name = self.struct_name_for(&base_type, "Field access on non-struct type: ")?;
                let (offset, unres_field_ty) = match self.field_slot(struct_name.as_str(), field.as_str(), false) {
                    Some(Some(slot)) => slot,
                    Some(None) => {
                        let a = concat3("Field '", field.as_str(), "' not found in struct '");
                        return Err(lower_error3(a.as_str(), struct_name.as_str(), "'"));
                    },
                    None => {
                        return Err(lower_error3("Struct layout not found: ", struct_name.as_str(), ""));
                    },
                };
                let field_type = self.resolve_type(&unres_field_ty)?;
                let field_addr_temp = self.emit_offset(field_type, base_addr, Value::Const(offset))?;
                Ok(Value::Temp(field_addr_temp))
            },
            ExprKind::Index { base, index } => {
                let base_addr = self.gen_lvalue_addr(base)?;
                let index_val = self.gen_expr(index, None)?;
                let base_type = self.expr_type(base)?;
                let element_type = indexed_element_type(&base_type);
                let stride = self.element_size(&element_type)?;
                let ghost iv = index_val.view();
                let ghost bv = base_addr.view();
                let offset_temp = self.emit_scaled(index_val, stride)?;
                let ghost mid = self.code@;
                let elem_addr_temp = self.emit_offset(element_type, base_addr, Value::Temp(offset_temp.clone()))?;
                proof {
                    assert(self.code@[self.code@.len() - 2] == mid.last());
                    assert(scaled_index(offset_temp@, iv, stride, bv) == (offset_temp@, iv, stride, bv));
                }
                Ok(Value::Temp(elem_addr_temp))
            },
            _ => Err(lower_error("Cannot take address of this expression.")),
        }
    }
}


/// The name of `s` if it declares a function with no generic parameters, no
/// parameters, no return type and an empty body.
pub open spec fn simple_fn_decl(s: Stmt) -> Option<Seq<char>> {
    match s {
        Stmt::Function { name, generic_params, params, body, rttype: None, .. } => if generic_params@.len() == 0
            && params@.len() == 0 && body@.len() == 0 {
            Some(name.value@)
        } else {
            None
        },
        _ => None,
    }
}

/// Each of `stmts` declares a function with no generic parameters, no parameters, no
/// return type and an empty body.
pub open spec fn all_simple_fns(stmts: Seq<Stmt>) -> bool {
    forall|i: int| 0 <= i < stmts.len() ==> #[trigger] simple_fn_decl(stmts[i]) is Some
}

/// The names of the functions `stmts` declare, in order.
pub open spec fn simple_fn_names(stmts: Seq<Stmt>) -> Seq<Seq<char>> {
    Seq::new(stmts.len(), |i: int| simple_fn_decl(stmts[i])->0)
}

/// No name occurs twice in `names`.
pub open spec fn distinct_names(names: Seq<Seq<char>>) -> bool {
    forall|i: int, j: int| 0 <= i < j < names.len() ==> names[i] != names[j]
}

/// The code of empty functions named `names`, in order: each its label and a `return`
/// of nothing.
pub open spec fn empty_functions_code(names: Seq<Seq<char>>) -> Seq<InstructionV>
    decreases names.len(),
{
    if names.len() == 0 {
        Seq::empty()
    } else {
        empty_functions_code(names.drop_last()) + seq![
            InstructionV::FunctionLabel(names.last()),
            InstructionV::Return { value: ValueV::Void },
        ]
    }
}

/// What follows a function's body: nothing when the body ends with a `return`, else a
/// `return` of nothing.
pub open spec fn body_tail(body: Seq<Stmt>) -> Seq<InstructionV> {
    if body.len() > 0 && body.last() is Return {
        Seq::empty()
    } else {
        seq![InstructionV::Return { value: ValueV::Void }]
    }
}

/// The code of the program `stmts` lowered from `g`, and how many labels it takes, when
/// each statement declares a function without generic parameters, with parameters and
/// return type that lowering takes as written, and with a body of the fragment that names
/// nothing: for each function, its label, its parameters, its body's code and its tail.
pub open spec fn plain_program(g: IRGen, stmts: Seq<Stmt>) -> Option<(Seq<InstructionV>, nat)>
    decreases stmts.len(),
{
    if stmts.len() == 0 {
        Some((Seq::empty(), 0))
    } else {
        match plain_program(g, stmts.drop_last()) {
            Some((c, k)) => match stmts.last() {
                Stmt::Function { name, generic_params, params, body, rttype, .. } => if generic_params@.len() == 0
                    && plain_params(params@) && (rttype matches Some(t) ==> plain_type(t)) && closed_block(body@) {
                    match frag_block(g, body@, g.labels_issued() + k, g.exit_labels()) {
                        Some((c2, k2)) => Some((
                            c + seq![InstructionV::FunctionLabel(name.value@)] + param_code(name.value@, params@) + c2
                                + body_tail(body@),
                            k + k2,
                        )),
                        None => None,
                    }
                } else {
                    None
                },
                _ => None,
            },
            None => None,
        }
    }
}

/// Every prefix of a program of such functions is one, taking no more labels.
pub proof fn lemma_plain_prefix(g: IRGen, stmts: Seq<Stmt>, i: int)
    requires
        plain_program(g, stmts) is Some,
        0 <= i <= stmts.len(),
    ensures
        plain_program(g, stmts.take(i)) matches Some((c, k)) && k <= (plain_program(g, stmts)->0).1,
    decreases stmts.len() - i,
{
    if i == stmts.len() {
        assert(stmts.take(i) =~= stmts);
    } else {
        lemma_plain_prefix(g, stmts, i + 1);
        assert(stmts.take(i + 1).drop_last() =~= stmts.take(i));
    }
}

/// A program of such functions lowers alike from any two states with the same label
/// count and the same open loops.
pub proof fn lemma_plain_program_same(a: IRGen, b: IRGen, stmts: Seq<Stmt>)
    requires
        a.labels_issued() == b.labels_issued(),
        a.exit_labels() == b.exit_labels(),
    ensures
        plain_program(a, stmts) == plain_program(b, stmts),
    decreases stmts.len(),
{
    if stmts.len() > 0 {
        lemma_plain_program_same(a, b, stmts.drop_last());
        if let Some((c, k)) = plain_program(a, stmts.drop_last()) {
            if let Stmt::Function { body, .. } = stmts.last() {
                if closed_block(body@) {
                    lemma_frag_block_closed(a, b, body@, a.labels_issued() + k, a.exit_labels());
                }
            }
        }
    }
}

/// The instructions of `s`, as values.
pub open spec fn views(s: Seq<Instruction>) -> Seq<InstructionV> {
    s.map_values(|i: Instruction| i.view())
}

/// The entries of a layout name the fields of `fields`, in order, with their types.
pub open spec fn same_fields(o: Seq<(Seq<char>, (i64, TypeV))>, fields: Seq<(Seq<char>, TypeV)>) -> bool {
    &&& o.len() == fields.len()
    &&& forall|k: int| 0 <= k < o.len() ==> #[trigger] o[k].0 == fields[k].0 && o[k].1.1 == fields[k].1
}

/// The parts of an element's address: the temporary holding the scaled index, the
/// index, the element size, and the base address.
pub open spec fn scaled_index(d1: Seq<char>, iv: ValueV, stride: i64, b: ValueV) -> (Seq<char>, ValueV, i64, ValueV) {
    (d1, iv, stride, b)
}

/// `n` is the name of one of `params` that has a declared type.
pub open spec fn typed_param(params: Seq<Parameter>, n: Seq<char>) -> bool {
    exists|j: int| 0 <= j < params.len() && #[trigger] params[j].name.value@ == n && params[j].ptype is Some
}

/// A type that lowering takes as it is written: `int`, `bool`, `str` or `char`.
pub open spec fn plain_type(t: Type) -> bool {
    t@ is Int || t@ is Bool || t@ is Str || t@ is Char
}

/// Parameters none of which is variadic, each without a type or with a plain one.
pub open spec fn plain_params(params: Seq<Parameter>) -> bool {
    forall|j: int| 0 <= j < params.len() ==> !(#[trigger] params[j]).is_variadic && (params[j].ptype matches Some(
        t,
    ) ==> plain_type(t))
}

/// The type a function declared with the return type `rttype` is recorded with.
pub open spec fn recorded_return(rttype: Option<Type>) -> TypeV {
    match rttype {
        Some(t) => t@,
        None => TypeV::Void,
    }
}

/// Every argument in `args` lowers, at `g`, to an operand without code.
pub open spec fn simple_args(g: IRGen, args: Seq<Expr>) -> bool {
    forall|i: int| 0 <= i < args.len() ==> #[trigger] simple_value(g, args[i]) is Some
}

/// The `Arg` instructions that pass the arguments `args`, each as the operand it lowers
/// to at `g`, in order.
pub open spec fn arg_code(g: IRGen, args: Seq<Expr>) -> Seq<InstructionV> {
    Seq::new(args.len(), |i: int| InstructionV::Arg { value: simple_value(g, args[i])->0 })
}

/// The parts of a loop's code: its condition's code, the condition, its body's code.
pub open spec fn while_code(c: Seq<InstructionV>, v: ValueV, b: Seq<InstructionV>) -> (Seq<InstructionV>, ValueV, Seq<
    InstructionV,
>) {
    (c, v, b)
}

/// The parts of an `if`'s code: its condition's code, the condition, the code of the
/// first branch, what follows the jump to the end, and the code of the `else` branch.
pub open spec fn if_code(
    c: Seq<InstructionV>,
    v: ValueV,
    t: Seq<InstructionV>,
    rest: Seq<InstructionV>,
    e: Seq<InstructionV>,
) -> (Seq<InstructionV>, ValueV, Seq<InstructionV>, Seq<InstructionV>, Seq<InstructionV>) {
    (c, v, t, rest, e)
}

/// `stmt` is an `if` whose condition does not fold to a boolean, so that its branches are
/// chosen when the program runs.
pub open spec fn dynamic_if(stmt: Stmt) -> bool {
    stmt matches Stmt::If { cond, .. } && pure_const(cond) matches Some(x) && !(x matches Some(
        ConstValV::Bool(_),
    ))
}

/// `after` is `before` with the code of the `if` `stmt`, lowered with `n` labels given out
/// before it: the condition's code and a jump, when it is false, to the label `n + 2`; the
/// first branch and a jump to the end, the label `n + 1`; then the other branches, and the
/// end. Without `else if`, what follows is the label `n + 2`, the `else` branch, if any,
/// and the end.
pub open spec fn if_lowered(stmt: Stmt, before: Seq<InstructionV>, after: Seq<InstructionV>, n: nat) -> bool {
    stmt matches Stmt::If { then_branch, else_if_branches, else_branch, .. } ==> exists|
        c: Seq<InstructionV>,
        v: ValueV,
        t: Seq<InstructionV>,
        rest: Seq<InstructionV>,
        e: Seq<InstructionV>,
    |
        #![trigger if_code(c, v, t, rest, e)]
        after == before + c + seq![InstructionV::JumpIfFalse { cond: v, target: label_name(n + 2) }] + t + seq![
            InstructionV::Jump(label_name(n + 1)),
        ] + rest && rest.len() > 0 && rest.last() == InstructionV::Label(label_name(n + 1)) && (then_branch@.len()
            == 0 ==> t.len() == 0) && (else_if_branches@.len() == 0 ==> rest == seq![
            InstructionV::Label(label_name(n + 2)),
        ] + e + seq![InstructionV::Label(label_name(n + 1))] && (else_branch is None ==> e.len() == 0) && (
        else_branch matches Some(eb) ==> (eb@.len() == 0 ==> e.len() == 0)))
}

/// Whether no two of `ids` have the same name.
pub open spec fn distinct_idents(ids: Seq<Identifier>) -> bool {
    forall|i: int, j: int| 0 <= i < ids.len() && 0 <= j < ids.len() && i != j ==> ids[i].value@ != ids[j].value@
}

/// The variants of an enum declared with `options`, numbered from zero in order.
pub open spec fn numbered_variants(options: Seq<Identifier>) -> Seq<(Seq<char>, i64)> {
    Seq::new(options.len(), |j: int| (options[j].value@, j as i64))
}

/// What follows `a` in `a + b` is `b`.
pub proof fn lemma_subrange_after(a: Seq<InstructionV>, b: Seq<InstructionV>)
    ensures
        (a + b).subrange(a.len() as int, (a + b).len() as int) == b,
{
    assert((a + b).subrange(a.len() as int, (a + b).len() as int) =~= b);
}

/// `b` is `a` with more instructions after them.
pub proof fn lemma_views_extend(a: Seq<Instruction>, b: Seq<Instruction>)
    requires
        a.len() <= b.len(),
        forall|i: int| 0 <= i < a.len() ==> #[trigger] b[i] == a[i],
    ensures
        views(b) == views(a) + views(b).subrange(a.len() as int, b.len() as int),
{
    assert(views(b) =~= views(a) + views(b).subrange(a.len() as int, b.len() as int));
}

/// The operand an expression lowers to without any code: a literal other than an array,
/// or a variable that names no constant.
pub open spec fn simple_value(g: IRGen, e: Expr) -> Option<ValueV> {
    match e.kind {
        ExprKind::Literal(l) => if l is Arr {
            None
        } else {
            Some(literal_value_v(l))
        },
        ExprKind::Identifier(n) => if g.constant_of(n@) is None {
            Some(ValueV::Var(g.resolved_var(n@)))
        } else {
            None
        },
        _ => None,
    }
}

/// The code of the statement `s` of the control-flow fragment, lowered by `g` with `n`
/// labels given out and the loops whose exits are `exits` open, and how many labels it
/// takes: `break`, `return` of a simple operand or of nothing, constants (lowered where
/// used), loops and `if`s whose conditions are simple operands (an `if`'s not folding to
/// a boolean) over such statements. `None` for any other statement.
pub open spec fn frag_stmt(g: IRGen, s: Stmt, n: nat, exits: Seq<Seq<char>>) -> Option<(Seq<InstructionV>, nat)>
    decreases s,
{
    match s {
        Stmt::Break { .. } => if exits.len() > 0 {
            Some((seq![InstructionV::Jump(exits.last())], 0))
        } else {
            None
        },
        Stmt::Return { value, .. } => match value {
            None => Some((seq![InstructionV::Return { value: ValueV::Void }], 0)),
            Some(e) => match simple_value(g, e) {
                Some(v) => Some((seq![InstructionV::Return { value: v }], 0)),
                None => None,
            },
        },
        Stmt::Constant { .. } => Some((Seq::empty(), 0)),
        Stmt::While { cond, body } => match simple_value(g, cond) {
            Some(v) => match frag_block(g, body@, n + 2, exits.push(label_name(n + 2))) {
                Some((bc, bk)) => Some((
                    seq![
                        InstructionV::Label(label_name(n + 1)),
                        InstructionV::JumpIfFalse { cond: v, target: label_name(n + 2) },
                    ] + bc + seq![InstructionV::Jump(label_name(n + 1)), InstructionV::Label(label_name(n + 2))],
                    2 + bk,
                )),
                None => None,
            },
            None => None,
        },
        Stmt::If { cond, then_branch, else_if_branches, else_branch } => if pure_const(cond) matches Some(x)
            && !(x matches Some(ConstValV::Bool(_))) {
            match simple_value(g, cond) {
                Some(v) => match frag_block(g, then_branch@, n + 2, exits) {
                    Some((tc, tk)) => match frag_elseifs(
                        g,
                        else_if_branches@,
                        label_name(n + 2),
                        label_name(n + 1),
                        n + 2 + tk,
                        exits,
                    ) {
                        Some((ec, ek, nx)) => {
                            let tail: Option<(Seq<InstructionV>, nat)> = match else_branch {
                                Some(eb) => match frag_block(g, eb@, n + 2 + tk + ek, exits) {
                                    Some((bc, bk)) => Some((seq![InstructionV::Label(nx)] + bc, bk)),
                                    None => None,
                                },
                                None => Some(
                                    (
                                        if nx != label_name(n + 1) {
                                            seq![InstructionV::Label(nx)]
                                        } else {
                                            Seq::empty()
                                        },
                                        0,
                                    ),
                                ),
                            };
                            match tail {
                                Some((lc, lk)) => Some((
                                    seq![InstructionV::JumpIfFalse { cond: v, target: label_name(n + 2) }] + tc
                                        + seq![InstructionV::Jump(label_name(n + 1))] + ec + lc + seq![
                                        InstructionV::Label(label_name(n + 1)),
                                    ],
                                    2 + tk + ek + lk,
                                )),
                                None => None,
                            }
                        },
                        None => None,
                    },
                    None => None,
                },
                None => None,
            }
        } else {
            None
        },
        _ => None,
    }
}

/// The code of the statements `ss` of the fragment, in order, and how many labels they
/// take; `None` if one of them is outside the fragment.
pub open spec fn frag_block(g: IRGen, ss: Seq<Stmt>, n: nat, exits: Seq<Seq<char>>) -> Option<(Seq<InstructionV>, nat)>
    decreases ss,
{
    if ss.len() == 0 {
        Some((Seq::empty(), 0))
    } else {
        match frag_block(g, ss.drop_last(), n, exits) {
            Some((c, k)) => match frag_stmt(g, ss.last(), n + k, exits) {
                Some((c2, k2)) => Some((c + c2, k + k2)),
                None => None,
            },
            None => None,
        }
    }
}

/// The code of the `else if` branches `bs` of an `if` whose end is the label `end`, the
/// first of them entered at the label `next0`, with `n` labels given out: for each, its
/// label, its condition's jump past it to a fresh label, its body and a jump to the end.
/// Also how many labels they take and the label that follows the last.
pub open spec fn frag_elseifs(
    g: IRGen,
    bs: Seq<(Expr, Vec<Stmt>)>,
    next0: Seq<char>,
    end: Seq<char>,
    n: nat,
    exits: Seq<Seq<char>>,
) -> Option<(Seq<InstructionV>, nat, Seq<char>)>
    decreases bs,
{
    if bs.len() == 0 {
        Some((Seq::empty(), 0, next0))
    } else {
        match frag_elseifs(g, bs.drop_last(), next0, end, n, exits) {
            Some((c, k, nx)) => match simple_value(g, bs.last().0) {
                Some(v) => match frag_block(g, bs.last().1@, n + k + 1, exits) {
                    Some((bc, bk)) => Some((
                        c + seq![
                            InstructionV::Label(nx),
                            InstructionV::JumpIfFalse { cond: v, target: label_name(n + k + 1) },
                        ] + bc + seq![InstructionV::Jump(end)],
                        k + 1 + bk,
                        label_name(n + k + 1),
                    )),
                    None => None,
                },
                None => None,
            },
            None => None,
        }
    }
}

/// The code of a fragment statement depends only on how names resolve.
#[verifier::spinoff_prover]
#[verifier::rlimit(80)]
pub proof fn lemma_frag_stmt_env(a: IRGen, b: IRGen, s: Stmt, n: nat, exits: Seq<Seq<char>>)
    requires
        a.resolves_alike(b),
    ensures
        frag_stmt(a, s, n, exits) == frag_stmt(b, s, n, exits),
    decreases s,
{
    match s {
        Stmt::While { cond, body } => {
            lemma_frag_block_env(a, b, body@, n + 2, exits.push(label_name(n + 2)));
        },
        Stmt::If { cond, then_branch, else_if_branches, else_branch } => {
            lemma_frag_block_env(a, b, then_branch@, n + 2, exits);
            if let Some((tc, tk)) = frag_block(a, then_branch@, n + 2, exits) {
                lemma_frag_elseifs_env(
                    a,
                    b,
                    else_if_branches@,
                    label_name(n + 2),
                    label_name(n + 1),
                    n + 2 + tk,
                    exits,
                );
                if let Some((ec, ek, nx)) = frag_elseifs(
                    a,
                    else_if_branches@,
                    label_name(n + 2),
                    label_name(n + 1),
                    n + 2 + tk,
                    exits,
                ) {
                    if let Some(eb) = else_branch {
                        lemma_frag_block_env(a, b, eb@, n + 2 + tk + ek, exits);
                    }
                }
            }
        },
        _ => {},
    }
}

/// Two states that each resolve names as the body of the same function declared at `o`
/// resolve them alike.
pub proof fn lemma_entered_resolves(a: IRGen, b: IRGen, o: IRGen, name: Seq<char>, params: Seq<Parameter>)
    requires
        a.entered_function(o, name, params),
        b.entered_function(o, name, params),
    ensures
        a.resolves_alike(b),
{
    assert forall|n: Seq<char>| #[trigger] a.resolved_var(n) == b.resolved_var(n) by {
        let q = name + "::"@ + n;
        assert(a.current_function@ + "::"@ + n == q);
        assert(b.current_function@ + "::"@ + n == q);
        assert(a.var_types.lookup(q) is Some <==> b.var_types.lookup(q) is Some);
    }
}

/// Recording parameter `i` of the function `name` (when it has a type) makes `name::n`
/// known exactly for the names known before and for the typed parameters up to `i`.
proof fn lemma_param_lookup(
    before: ScopedMap,
    after: ScopedMap,
    outer: ScopedMap,
    name: Seq<char>,
    params: Seq<Parameter>,
    i: int,
    key: Seq<char>,
)
    requires
        0 <= i < params.len(),
        key == name + "::"@ + params[i].name.value@,
        forall|n: Seq<char>| #[trigger] before.lookup(name + "::"@ + n) is Some <==> (outer.lookup(name + "::"@ + n) is Some
            || typed_param(params.take(i), n)),
        params[i].ptype is Some ==> after.lookup(key) is Some && forall|k: Seq<char>|
            k != key ==> #[trigger] after.lookup(k) == before.lookup(k),
        params[i].ptype is None ==> after == before,
    ensures
        forall|n: Seq<char>| #[trigger] after.lookup(name + "::"@ + n) is Some <==> (outer.lookup(name + "::"@ + n) is Some
            || typed_param(params.take(i + 1), n)),
{
    let pn = params[i].name.value@;
    assert forall|n: Seq<char>| #[trigger] after.lookup(name + "::"@ + n) is Some <==> (outer.lookup(name + "::"@ + n)
        is Some || typed_param(params.take(i + 1), n)) by {
        let q = name + "::"@ + n;
        assert(before.lookup(q) is Some <==> (outer.lookup(q) is Some || typed_param(params.take(i), n)));
        if typed_param(params.take(i), n) {
            let j = choose|j: int|
                0 <= j < params.take(i).len() && #[trigger] params.take(i)[j].name.value@ == n && params.take(i)[j].ptype
                    is Some;
            assert(params.take(i + 1)[j] == params.take(i)[j]);
        }
        if n == pn {
            if params[i].ptype is Some {
                assert(params.take(i + 1)[i] == params[i]);
            }
        }
        if typed_param(params.take(i + 1), n) && !typed_param(params.take(i), n) {
            let j = choose|j: int|
                0 <= j < params.take(i + 1).len() && #[trigger] params.take(i + 1)[j].name.value@ == n && params.take(
                    i + 1,
                )[j].ptype is Some;
            if j < i {
                assert(params.take(i)[j] == params.take(i + 1)[j]);
            }
            assert(j == i);
        }
        if n != pn {
            if (name + "::"@) + n == (name + "::"@) + pn {
                lemma_suffix_injective(name + "::"@, n, pn);
            }
            assert(q != key);
        }
    }
}

/// Two names `a + n` and `a + m` with the same prefix `a` are equal only when `n == m`.
pub proof fn lemma_suffix_injective(a: Seq<char>, n: Seq<char>, m: Seq<char>)
    requires
        a + n == a + m,
    ensures
        n == m,
{
    assert(n =~= (a + n).subrange(a.len() as int, (a + n).len() as int));
    assert(m =~= (a + m).subrange(a.len() as int, (a + m).len() as int));
}

/// The code of a fragment block depends only on how names resolve.
pub proof fn lemma_frag_block_env(a: IRGen, b: IRGen, ss: Seq<Stmt>, n: nat, exits: Seq<Seq<char>>)
    requires
        a.resolves_alike(b),
    ensures
        frag_block(a, ss, n, exits) == frag_block(b, ss, n, exits),
    decreases ss,
{
    if ss.len() > 0 {
        lemma_frag_block_env(a, b, ss.drop_last(), n, exits);
        if let Some((c, k)) = frag_block(a, ss.drop_last(), n, exits) {
            lemma_frag_stmt_env(a, b, ss.last(), n + k, exits);
        }
    }
}

/// The code of `else if` branches depends only on how names resolve.
pub proof fn lemma_frag_elseifs_env(
    a: IRGen,
    b: IRGen,
    bs: Seq<(Expr, Vec<Stmt>)>,
    next0: Seq<char>,
    end: Seq<char>,
    n: nat,
    exits: Seq<Seq<char>>,
)
    requires
        a.resolves_alike(b),
    ensures
        frag_elseifs(a, bs, next0, end, n, exits) == frag_elseifs(b, bs, next0, end, n, exits),
    decreases bs,
{
    if bs.len() > 0 {
        lemma_frag_elseifs_env(a, b, bs.drop_last(), next0, end, n, exits);
        if let Some((c, k, nx)) = frag_elseifs(a, bs.drop_last(), next0, end, n, exits) {
            lemma_frag_block_env(a, b, bs.last().1@, n + k + 1, exits);
        }
    }
}

/// A statement of the fragment that names nothing: its conditions and returned values
/// are literals, and so are those of the statements inside it.
pub open spec fn closed_stmt(s: Stmt) -> bool
    decreases s,
{
    match s {
        Stmt::Return { value, .. } => match value {
            Some(e) => e.kind is Literal,
            None => true,
        },
        Stmt::While { cond, body } => cond.kind is Literal && closed_block(body@),
        Stmt::If { cond, then_branch, else_if_branches, else_branch } => cond.kind is Literal && closed_block(
            then_branch@,
        ) && closed_elseifs(else_if_branches@) && match else_branch {
            Some(eb) => closed_block(eb@),
            None => true,
        },
        _ => true,
    }
}

/// Statements each of which names nothing.
pub open spec fn closed_block(ss: Seq<Stmt>) -> bool
    decreases ss,
{
    if ss.len() == 0 {
        true
    } else {
        closed_block(ss.drop_last()) && closed_stmt(ss.last())
    }
}

/// `else if` branches whose conditions are literals and whose bodies name nothing.
pub open spec fn closed_elseifs(bs: Seq<(Expr, Vec<Stmt>)>) -> bool
    decreases bs,
{
    if bs.len() == 0 {
        true
    } else {
        closed_elseifs(bs.drop_last()) && bs.last().0.kind is Literal && closed_block(bs.last().1@)
    }
}

/// The code of a closed fragment statement is the same whatever state lowers it.
#[verifier::spinoff_prover]
#[verifier::rlimit(80)]
pub proof fn lemma_frag_stmt_closed(a: IRGen, b: IRGen, s: Stmt, n: nat, exits: Seq<Seq<char>>)
    requires
        closed_stmt(s),
    ensures
        frag_stmt(a, s, n, exits) == frag_stmt(b, s, n, exits),
    decreases s,
{
    match s {
        Stmt::While { cond, body } => {
            lemma_frag_block_closed(a, b, body@, n + 2, exits.push(label_name(n + 2)));
        },
        Stmt::If { cond, then_branch, else_if_branches, else_branch } => {
            lemma_frag_block_closed(a, b, then_branch@, n + 2, exits);
            if let Some((tc, tk)) = frag_block(a, then_branch@, n + 2, exits) {
                lemma_frag_elseifs_closed(
                    a,
                    b,
                    else_if_branches@,
                    label_name(n + 2),
                    label_name(n + 1),
                    n + 2 + tk,
                    exits,
                );
                if let Some((ec, ek, nx)) = frag_elseifs(
                    a,
                    else_if_branches@,
                    label_name(n + 2),
                    label_name(n + 1),
                    n + 2 + tk,
                    exits,
                ) {
                    if let Some(eb) = else_branch {
                        lemma_frag_block_closed(a, b, eb@, n + 2 + tk + ek, exits);
                    }
                }
            }
        },
        _ => {},
    }
}

/// The code of a closed fragment block is the same whatever state lowers it.
pub proof fn lemma_frag_block_closed(a: IRGen, b: IRGen, ss: Seq<Stmt>, n: nat, exits: Seq<Seq<char>>)
    requires
        closed_block(ss),
    ensures
        frag_block(a, ss, n, exits) == frag_block(b, ss, n, exits),
    decreases ss,
{
    if ss.len() > 0 {
        lemma_frag_block_closed(a, b, ss.drop_last(), n, exits);
        if let Some((c, k)) = frag_block(a, ss.drop_last(), n, exits) {
            lemma_frag_stmt_closed(a, b, ss.last(), n + k, exits);
        }
    }
}

/// The code of closed `else if` branches is the same whatever state lowers them.
pub proof fn lemma_frag_elseifs_closed(
    a: IRGen,
    b: IRGen,
    bs: Seq<(Expr, Vec<Stmt>)>,
    next0: Seq<char>,
    end: Seq<char>,
    n: nat,
    exits: Seq<Seq<char>>,
)
    requires
        closed_elseifs(bs),
    ensures
        frag_elseifs(a, bs, next0, end, n, exits) == frag_elseifs(b, bs, next0, end, n, exits),
    decreases bs,
{
    if bs.len() > 0 {
        lemma_frag_elseifs_closed(a, b, bs.drop_last(), next0, end, n, exits);
        if let Some((c, k, nx)) = frag_elseifs(a, bs.drop_last(), next0, end, n, exits) {
            lemma_frag_block_closed(a, b, bs.last().1@, n + k + 1, exits);
        }
    }
}

/// Every prefix of a fragment block is one, taking no more labels.
pub proof fn lemma_frag_block_prefix(g: IRGen, ss: Seq<Stmt>, i: int, n: nat, exits: Seq<Seq<char>>)
    requires
        frag_block(g, ss, n, exits) is Some,
        0 <= i <= ss.len(),
    ensures
        frag_block(g, ss.take(i), n, exits) matches Some((c, k)) && k <= (frag_block(g, ss, n, exits)->0).1,
    decreases ss.len() - i,
{
    if i == ss.len() {
        assert(ss.take(i) =~= ss);
    } else {
        lemma_frag_block_prefix(g, ss, i + 1, n, exits);
        assert(ss.take(i + 1).drop_last() =~= ss.take(i));
    }
}

/// Every prefix of fragment `else if` branches is one, taking no more labels.
pub proof fn lemma_frag_elseifs_prefix(
    g: IRGen,
    bs: Seq<(Expr, Vec<Stmt>)>,
    i: int,
    next0: Seq<char>,
    end: Seq<char>,
    n: nat,
    exits: Seq<Seq<char>>,
)
    requires
        frag_elseifs(g, bs, next0, end, n, exits) is Some,
        0 <= i <= bs.len(),
    ensures
        frag_elseifs(g, bs.take(i), next0, end, n, exits) matches Some((c, k, nx)) && k <= (frag_elseifs(
            g,
            bs,
            next0,
            end,
            n,
            exits,
        )->0).1,
    decreases bs.len() - i,
{
    if i == bs.len() {
        assert(bs.take(i) =~= bs);
    } else {
        lemma_frag_elseifs_prefix(g, bs, i + 1, next0, end, n, exits);
        assert(bs.take(i + 1).drop_last() =~= bs.take(i));
    }
}

/// An operand of type `str` whose value lowers without code: a string literal, or a
/// variable of the current function recorded as a `str` that names no constant.
pub open spec fn str_operand(g: IRGen, e: Expr) -> bool {
    match e.kind {
        ExprKind::Literal(Literal::String(_)) => true,
        ExprKind::Identifier(n) => g.constant_of(n@) is None && g.type_of_name(g.function_name() + "::"@ + n@)
            == Some(TypeV::Str),
        _ => false,
    }
}

/// An integer, boolean, character or `nil` literal: one that lowers to itself and is no
/// string.
pub open spec fn plain_literal(l: Literal) -> bool {
    l is Int || l is Bool || l is Char || l is Nil
}

/// The two strings of `e`, if `e` is `+` of two string literals.
pub open spec fn literal_concat(e: Expr) -> Option<(Seq<char>, Seq<char>)> {
    match e.kind {
        ExprKind::Binary { left, op: BinaryOp::Add, right } => match (left.kind, right.kind) {
            (ExprKind::Literal(Literal::String(a)), ExprKind::Literal(Literal::String(b))) => Some((a@, b@)),
            _ => None,
        },
        _ => None,
    }
}

impl IRGen {
    /// Lowers an expression and gives the operand that holds its value. An array or
    /// struct literal is built in `target_dest` when one is given, else in a fresh
    /// variable.
    #[verifier::spinoff_prover]
    #[verifier::rlimit(30)]
    pub fn gen_expr(&mut self, expr: &Expr, target_dest: Option<Value>) -> (res: Result<Value, LowerError>)
        requires
            old(self).wf(),
        ensures
            final(self).wf(),
            res is Ok ==> final(self).extends(&*old(self)),
            match expr.kind {
                ExprKind::Literal(l) => !(l is Arr) ==> (res matches Ok(v) && v.view() == literal_value_v(l)
                    && *final(self) == *old(self)),
                ExprKind::Sizeof { .. } => res matches Ok(v) ==> v is Const && final(self).instrs() == old(
                    self,
                ).instrs(),
                ExprKind::Typeof { .. } => res matches Ok(v) ==> v is Str && final(self).instrs() == old(
                    self,
                ).instrs(),
                ExprKind::Cast { .. } => res matches Ok(v) ==> v matches Value::Temp(d)
                    && final(self).instrs().last().view() matches InstructionV::Cast { dst, .. } && dst == d@,
                _ => true,
            },
            expr.kind matches ExprKind::Unary { op, .. } ==> (res matches Ok(v) ==> match op {
                UnaryOp::Positive => v matches Value::Temp(d) && final(self).instrs().last().view() matches
                    InstructionV::Unary { dst, op: IrOp::Pos, .. } && dst == d@,
                UnaryOp::Negative => v matches Value::Temp(d) && final(self).instrs().last().view() matches
                    InstructionV::Unary { dst, op: IrOp::Neg, .. } && dst == d@,
                UnaryOp::Not => v matches Value::Temp(d) && final(self).instrs().last().view() matches
                    InstructionV::Unary { dst, op: IrOp::Not, .. } && dst == d@,
                UnaryOp::Deref => v matches Value::Temp(d) && final(self).instrs().last().view() matches
                    InstructionV::Load { dst, .. } && dst == d@,
                UnaryOp::AddressOf => true,
            }),
            expr.kind matches ExprKind::Binary { op, .. } ==> (res matches Ok(v) ==> v matches Value::Temp(d) && ((
                final(self).instrs().last().view() matches InstructionV::Binary { dst, op: o, .. } && dst == d@
                && o == binary_ir_op(op)) || (op is Add && final(self).instrs().last().view() == (InstructionV::Call {
                dest: Some(d@),
                name: "str_concat"@,
                argc: 2,
            })))),
            expr.kind is Call ==> (res matches Ok(v) ==> v matches Value::Temp(d) && final(self).instrs().last().view()
                matches InstructionV::Call { dest, .. } && dest == Some(d@)),
            expr.kind matches ExprKind::Call { callee, args, .. } ==> (!old(self).has_blueprint(callee.value@)
                ==> (res is Ok ==> (final(self).instrs().last().view() matches InstructionV::Call { name, argc, .. }
                && name == callee.value@ && argc == args@.len()))),
            expr.kind matches ExprKind::Call { callee, args, .. } ==> (!old(self).has_blueprint(callee.value@)
                && simple_args(*old(self), args@) ==> (res is Ok ==> views(final(self).instrs()) == views(old(self).instrs())
                + arg_code(*old(self), args@) + seq![final(self).instrs().last().view()])),
            expr.kind matches ExprKind::Call { callee, generic_args, args } ==> (!old(self).has_blueprint(callee.value@)
                && generic_args@.len() == 0 && simple_args(*old(self), args@) ==> (res is Ok <==> old(self).temps_issued()
                < usize::MAX)),
            expr.kind is Index ==> (res matches Ok(v) ==> v matches Value::Temp(d) && final(self).instrs().last().view()
                matches InstructionV::Load { dst, .. } && dst == d@),
            expr.kind is Field ==> (res matches Ok(v) ==> v is Const || (v matches Value::Temp(d) && final(
                self).instrs().last().view() matches InstructionV::Load { dst, .. } && dst == d@)),
            literal_concat(*expr) matches Some((a, b)) ==> (res matches Ok(v) ==> (v matches Value::Temp(d)
                && final(self).instrs().len() == old(self).instrs().len() + 3
                && final(self).instrs()[old(self).instrs().len() as int].view() == (InstructionV::Arg {
                    value: ValueV::Str(a),
                }) && final(self).instrs()[old(self).instrs().len() + 1int].view() == (InstructionV::Arg {
                    value: ValueV::Str(b),
                }) && final(self).instrs()[old(self).instrs().len() + 2int].view() == (InstructionV::Call {
                    dest: Some(d@),
                    name: "str_concat"@,
                    argc: 2,
                }) && final(self).type_of_name(d@) == Some(TypeV::Str) && d@ == (if old(self).function_name().len()
                    == 0 {
                    temp_name(old(self).temps_issued() + 1)
                } else {
                    old(self).function_name() + "::"@ + temp_name(old(self).temps_issued() + 1)
                }))),
            simple_value(*old(self), *expr) matches Some(v) ==> (res matches Ok(r) && r.view() == v && *final(self)
                == *old(self)),
            expr.kind matches ExprKind::Binary { left, op: BinaryOp::Add, right } ==> (str_operand(*old(self), *left)
                && str_operand(*old(self), *right) ==> ((res is Ok <==> old(self).temps_issued() < usize::MAX) && (
            res matches Ok(v) ==> v matches Value::Temp(d) && final(self).instrs().last().view() == (InstructionV::Call {
                dest: Some(d@),
                name: "str_concat"@,
                argc: 2,
            }) && final(self).type_of_name(d@) == Some(TypeV::Str)))),
            expr.kind matches ExprKind::Unary { op, expr: e } ==> (e.kind matches ExprKind::Literal(l) ==> (plain_literal(l)
                && (op is Positive || op is Negative || op is Not) ==> ((res is Ok <==> old(self).temps_issued()
                < usize::MAX) && (res matches Ok(v) ==> v matches Value::Temp(d) && final(self).instrs() == old(self).instrs().push(
                final(self).instrs().last(),
            ) && final(self).instrs().last().view() == (InstructionV::Unary {
                dst: d@,
                op: match op {
                    UnaryOp::Positive => IrOp::Pos,
                    UnaryOp::Negative => IrOp::Neg,
                    _ => IrOp::Not,
                },
                value: literal_value_v(l),
            }))))),
            expr.kind matches ExprKind::Binary { left, op, right } ==> (left.kind matches ExprKind::Literal(l1)
                ==> (right.kind matches ExprKind::Literal(l2) ==> (plain_literal(l1) && plain_literal(l2) ==> (
            (res is Ok <==> old(self).temps_issued() < usize::MAX) && (res matches Ok(v) ==> v matches Value::Temp(d)
                && final(self).instrs() == old(self).instrs().push(final(self).instrs().last())
                && final(self).instrs().last().view() == (InstructionV::Binary {
                    dst: d@,
                    op: binary_ir_op(op),
                    lhs: literal_value_v(l1),
                    rhs: literal_value_v(l2),
                })))))),
            expr.kind matches ExprKind::Binary { left, op, right } ==> (simple_value(*old(self), *left) matches Some(
                v1,
            ) ==> (simple_value(*old(self), *right) matches Some(v2) ==> ((!(op is Add) ==> (res is Ok
                <==> old(self).temps_issued() < usize::MAX)) && (res matches Ok(v) ==> v matches Value::Temp(d) && (
            views(final(self).instrs()) == views(old(self).instrs()).push(
                InstructionV::Binary { dst: d@, op: binary_ir_op(op), lhs: v1, rhs: v2 },
            ) || (op is Add && views(final(self).instrs()) == views(old(self).instrs()) + seq![
                InstructionV::Arg { value: v1 },
                InstructionV::Arg { value: v2 },
                InstructionV::Call { dest: Some(d@), name: "str_concat"@, argc: 2 },
            ])))))),
        decreases old(self).budget(), expr, 1int,
    {
        match &expr.kind {
            ExprKind::Sizeof { ty } => {
                let resolved_ty = self.resolve_type(ty)?;
                let size = self.type_size(&resolved_ty)?;
                Ok(Value::Const(size))
            },
            ExprKind::Typeof { expr: inner } => {
                match self.expr_type(inner)? {
                    Some(rexpr) => Ok(Value::Str(typeof_string(&rexpr))),
                    None => Err(lower_error("ICE: typeof statement cannot resolve expression.")),
                }
            },
            ExprKind::Cast { left, right } => {
                let val_to_cast = self.gen_expr(left, None)?;
                let from_type = match self.expr_type(left)? {
                    Some(t) => t,
                    None => Type::Int,
                };
                let to_type = self.resolve_type(right)?;
                let cast_ty = cast_kind(&from_type, &to_type);
                let result_temp = self.next_temp_with_type(clone_type(&to_type))?;
                self.push_code(
                    Instruction::Cast { dst: result_temp.clone(), cast_ty, value: val_to_cast, to_type },
                );
                Ok(Value::Temp(result_temp))
            },
            ExprKind::Literal(lit) => match lit {
                Literal::Int(v) => Ok(Value::Const(*v)),
                Literal::Double(d) => Ok(Value::Double(*d)),
                Literal::Float(f) => Ok(Value::Float(*f)),
                Literal::String(s) => Ok(Value::Str(s.clone())),
                Literal::Bool(b) => Ok(Value::Bool(*b)),
                Literal::Nil => Ok(Value::Nil),
                Literal::Char(c) => Ok(Value::Char(*c)),
                Literal::Arr { elements } => {
                    proof {
                        let l = expr.kind->Literal_0;
                        assert(decreases_to!(expr => expr.kind));
                        assert(decreases_to!(expr.kind => l));
                        assert(decreases_to!(l => l->Arr_elements));
                        assert(decreases_to!(l->Arr_elements => l->Arr_elements@));
                    }
                    let element_type = if elements.len() > 0 {
                        match self.expr_type(&elements[0])? {
                            Some(t) => t,
                            None => Type::Int,
                        }
                    } else {
                        Type::Int
                    };
                    let stride = self.element_size(&element_type)?;
                    let base_val = match target_dest {
                        Some(dest) => dest,
                        None => {
                            let anon_name = self.anon_var(
                                "_anon_",
                                Type::Array { element_type: Box::new(clone_type(&element_type)), size: elements.len() },
                            )?;
                            Value::Var(anon_name)
                        },
                    };
                    let mut index: usize = 0;
                    while index < elements.len()
                        invariant
                            0 <= index <= elements@.len(),
                            self.wf(),
                            self.extends(&*old(self)),
                            expr.kind == ExprKind::Literal(Literal::Arr { elements: *elements }),
                        decreases elements.len() - index,
                    {
                        proof {
                            let l = expr.kind->Literal_0;
                            assert(decreases_to!(expr => expr.kind));
                            assert(decreases_to!(expr.kind => l));
                            assert(decreases_to!(l => l->Arr_elements));
                            assert(decreases_to!(l->Arr_elements => l->Arr_elements@));
                            assert(decreases_to!(l->Arr_elements@ => l->Arr_elements@[index as int]));
                        }
                        let element_val = self.gen_expr(&elements[index], None)?;
                        if (index as u64) > (i64::MAX as u64) {
                            return Err(lower_error("Internal error: an array literal is too long."));
                        }
                        let offset_temp = self.next_temp_with_type(Type::Int)?;
                        self.push_code(
                            Instruction::Binary {
                                dst: offset_temp.clone(),
                                op: IrOp::Mul,
                                lhs: Value::Const(index as i64),
                                rhs: Value::Const(stride),
                            },
                        );
                        let base_addr_temp = self.emit_ref(clone_type(&element_type), base_val.duplicate())?;
                        let slot_addr_temp = self.emit_offset(
                            clone_type(&element_type),
                            Value::Temp(base_addr_temp),
                            Value::Temp(offset_temp),
                        )?;
                        self.push_code(Instruction::Store { ptr: Value::Temp(slot_addr_temp), source: element_val });
                        index = index + 1;
                    }
                    Ok(base_val)
                },
            },
            ExprKind::Field { base, field } => {
                if let ExprKind::Identifier(enum_name) = &base.kind {
                    match self.enum_defs.get(enum_name.as_str()) {
                        Some(variants) => {
                            return match variant_get(variants, field.as_str()) {
                                Some(discriminant) => Ok(Value::Const(discriminant)),
                                None => {
                                    let a = concat3("ICE: enum '", enum_name.as_str(), "' has no variant '");
                                    Err(lower_error3(a.as_str(), field.as_str(), "'"))
                                },
                            };
                        },
                        None => {},
                    }
                }
                let base_addr = self.gen_lvalue_addr(base)?;
                let base_type = match self.expr_type(base)? {
                    Some(t) => t,
                    None => Type::Int,
                };
                let struct_name = self.struct_name_for(
                    &base_type,
                    "ICE: Attempted field access on non-struct type. Found: ",
                )?;
                let (offset, unres_field_ty) = match self.field_slot(struct_name.as_str(), field.as_str(), true) {
                    Some(Some(slot)) => slot,
                    Some(None) => {
                        let a = concat3("ICE: Referenced struct field '", field.as_str(), "' does not exist in '");
                        return Err(lower_error3(a.as_str(), struct_name.as_str(), "'."));
                    },
                    None => {
                        return Err(
                            lower_error3(
                                "ICE: Structural reference layout untracked for '",
                                struct_name.as_str(),
                                "'.",
                            ),
                        );
                    },
                };
                let field_type = self.resolve_type(&unres_field_ty)?;
                let field_addr_temp = self.emit_offset(clone_type(&field_type), base_addr, Value::Const(offset))?;
                let result_temp = self.emit_load(field_type, Value::Temp(field_addr_temp))?;
                Ok(Value::Temp(result_temp))
            },
            ExprKind::StructLiteral { struct_name, generic_args, fields } => {
                let concrete_type = if generic_args.len() == 0 {
                    Type::Struct(struct_name.clone())
                } else {
                    let generic_ty = Type::GenericInstance { name: struct_name.clone(), args: clone_types(generic_args) };
                    self.resolve_type(&generic_ty)?
                };
                let concrete_struct_name = match &concrete_type {
                    Type::Struct(name) => name.clone(),
                    _ => {
                        return Err(lower_error("Expected concrete struct type after resolution"));
                    },
                };
                let target_val = match target_dest {
                    Some(dest) => dest,
                    None => {
                        let anon_name = self.anon_var("_anon_struct_", clone_type(&concrete_type))?;
                        Value::Var(anon_name)
                    },
                };
                let mut layout_fields: Vec<(String, i64, Type)> = Vec::new();
                match self.struct_defs.get(concrete_struct_name.as_str()) {
                    Some(layout) => {
                        let count = offset_count(&layout.field_offsets);
                        let mut k: usize = 0;
                        while k < count
                            invariant
                                0 <= k <= count,
                                count == offset_entries(layout.field_offsets).len(),
                            decreases count - k,
                        {
                            let (n, e) = offset_at(&layout.field_offsets, k);
                            layout_fields.push((n.clone(), e.0, clone_type(&e.1)));
                            k = k + 1;
                        }
                    },
                    None => {
                        return Err(lower_error("ICE: Structural initialization on untracked layout."));
                    },
                }
                let mut i: usize = 0;
                while i < fields.len()
                    invariant
                        0 <= i <= fields@.len(),
                        self.wf(),
                        self.extends(&*old(self)),
                        expr.kind == (ExprKind::StructLiteral {
                            struct_name: *struct_name,
                            generic_args: *generic_args,
                            fields: *fields,
                        }),
                    decreases fields.len() - i,
                {
                    proof {
                        let fs = expr.kind->StructLiteral_fields;
                        assert(decreases_to!(expr => expr.kind));
                        assert(decreases_to!(expr.kind => fs));
                        assert(decreases_to!(fs => fs@));
                        assert(decreases_to!(fs@ => fs@[i as int]));
                        assert(decreases_to!(fs@[i as int] => fs@[i as int].1));
                    }
                    let field_val = self.gen_expr(&fields[i].1, None)?;
                    let mut found: Option<usize> = None;
                    let mut k: usize = 0;
                    while k < layout_fields.len()
                        invariant
                            0 <= k <= layout_fields@.len(),
                            i < fields@.len(),
                            found matches Some(x) ==> x < layout_fields@.len(),
                        decreases layout_fields.len() - k,
                    {
                        if str_eq(layout_fields[k].0.as_str(), fields[i].0.as_str()) {
                            found = Some(k);
                            break;
                        }
                        k = k + 1;
                    }
                    let (offset, field_type) = match found {
                        Some(x) => (layout_fields[x].1, clone_type(&layout_fields[x].2)),
                        None => {
                            return Err(lower_error("ICE: Field initialization lookup failure."));
                        },
                    };
                    let base_addr_temp = self.emit_ref(clone_type(&concrete_type), target_val.duplicate())?;
                    let slot_addr_temp = self.emit_offset(field_type, Value::Temp(base_addr_temp), Value::Const(offset))?;
                    self.push_code(Instruction::Store { ptr: Value::Temp(slot_addr_temp), source: field_val });
                    i = i + 1;
                }
                Ok(target_val)
            },
            ExprKind::Index { base, index } => {
                let base_val = self.gen_expr(base, None)?;
                let index_val = self.gen_expr(index, None)?;
                let base_type = self.expr_type(base)?;
                let element_type = indexed_element_type(&base_type);
                let stride = self.element_size(&element_type)?;
                let offset_temp = self.emit_scaled(index_val, stride)?;
                let target_addr_temp = self.next_temp_with_type(Type::Ptr(Box::new(clone_type(&element_type))))?;
                let is_base_variable_a_pointer = match &base_val {
                    Value::Var(name) => matches!(self.var_types.get(name.as_str()), Some(Type::Ptr(_))),
                    _ => false,
                };
                if is_base_variable_a_pointer || matches!(base_type, Some(Type::Ptr(_))) {
                    self.push_code(
                        Instruction::Binary {
                            dst: target_addr_temp.clone(),
                            op: IrOp::Add,
                            lhs: base_val,
                            rhs: Value::Temp(offset_temp),
                        },
                    );
                } else {
                    match base_val {
                        Value::Var(_) => {
                            let base_addr_temp = self.emit_ref(clone_type(&element_type), base_val)?;
                            self.push_code(
                                Instruction::Binary {
                                    dst: target_addr_temp.clone(),
                                    op: IrOp::Add,
                                    lhs: Value::Temp(base_addr_temp),
                                    rhs: Value::Temp(offset_temp),
                                },
                            );
                        },
                        _ => {
                            self.push_code(
                                Instruction::Binary {
                                    dst: target_addr_temp.clone(),
                                    op: IrOp::Add,
                                    lhs: base_val,
                                    rhs: Value::Temp(offset_temp),
                                },
                            );
                        },
                    }
                }
                let result_temp = self.emit_load(element_type, Value::Temp(target_addr_temp))?;
                Ok(Value::Temp(result_temp))
            },
            ExprKind::Identifier(name) => {
                let maybe_const_expr = match self.analyser_constants.get(name.as_str()) {
                    Some(c) => Some(c.1.duplicate()),
                    None => None,
                };
                if let Some(const_expr) = maybe_const_expr {
                    match self.evaluated_constants.get(name.as_str()) {
                        Some(val) => {
                            return Ok(val.duplicate());
                        },
                        None => {},
                    }
                    if self.const_budget == 0 {
                        return Err(lower_error("Internal error: named constants refer to each other too deeply."));
                    }
                    self.const_budget = self.const_budget - 1;
                    let val = self.gen_expr(&const_expr, None)?;
                    self.evaluated_constants.insert(name.clone(), val.duplicate());
                    return Ok(val);
                }
                Ok(Value::Var(self.resolve_var_name(name.as_str())))
            },
            ExprKind::Unary { op, expr: inner } => match op {
                UnaryOp::Positive => {
                    let value = self.gen_expr(inner, None)?;
                    self.emit_unary(IrOp::Pos, value)
                },
                UnaryOp::Negative => {
                    let value = self.gen_expr(inner, None)?;
                    self.emit_unary(IrOp::Neg, value)
                },
                UnaryOp::Deref => {
                    let value = self.gen_expr(inner, None)?;
                    let inner_type = match self.expr_type(inner)? {
                        Some(t) => t,
                        None => Type::Void,
                    };
                    let value_type = match inner_type {
                        Type::Ptr(t) => *t,
                        _ => {
                            return Err(
                                lower_error("non-pointer type dereferenced (this should be handled by analyser)"),
                            );
                        },
                    };
                    let result_temp = self.emit_load(value_type, value)?;
                    Ok(Value::Temp(result_temp))
                },
                UnaryOp::Not => {
                    let value = self.gen_expr(inner, None)?;
                    self.emit_unary(IrOp::Not, value)
                },
                UnaryOp::AddressOf => {
                    if let ExprKind::Literal(lit) = &inner.kind {
                        let lit_val = match lit {
                            Literal::Int(v) => Value::Const(*v),
                            Literal::Double(d) => Value::Double(*d),
                            Literal::Float(f) => Value::Float(*f),
                            Literal::Nil => Value::Nil,
                            Literal::Bool(b) => Value::Bool(*b),
                            Literal::Char(c) => Value::Char(*c),
                            Literal::String(s) => Value::Str(s.clone()),
                            Literal::Arr { .. } => self.gen_expr(inner, None)?,
                        };
                        let lit_ty = match self.expr_type(inner)? {
                            Some(t) => t,
                            None => Type::Int,
                        };
                        let anon_var_name = self.anon_var("_anon_lit_", clone_type(&lit_ty))?;
                        self.push_code(Instruction::Assign { dst: anon_var_name.clone(), src: lit_val });
                        let ref_temp = self.emit_ref(lit_ty, Value::Var(anon_var_name))?;
                        Ok(Value::Temp(ref_temp))
                    } else if matches!(inner.kind, ExprKind::Field { .. } | ExprKind::Index { .. })
                        || matches!(inner.kind, ExprKind::Unary { op: UnaryOp::Deref, .. }) {
                        self.gen_lvalue_addr(inner)
                    } else {
                        let value = self.gen_expr(inner, None)?;
                        let inner_type = self.get_value_type(&value);
                        let anon_var_name = self.anon_var("_anon_ref_", clone_type(&inner_type))?;
                        self.push_code(Instruction::Assign { dst: anon_var_name.clone(), src: value });
                        let temp = self.emit_ref(inner_type, Value::Var(anon_var_name))?;
                        Ok(Value::Temp(temp))
                    }
                },
            },
            ExprKind::Binary { left, op, right } => {
                let lhs = self.gen_expr(left, None)?;
                let rhs = self.gen_expr(right, None)?;
                if matches!(op, BinaryOp::Add) {
                    let left_is_str = self.is_string_valued(&lhs) || matches!(self.expr_type(left)?, Some(Type::Str));
                    if left_is_str {
                        let right_is_str = self.is_string_valued(&rhs) || matches!(
                            self.expr_type(right)?,
                            Some(Type::Str)
                        );
                        if right_is_str {
                            self.push_code(Instruction::Arg { value: lhs });
                            self.push_code(Instruction::Arg { value: rhs });
                            let dst = self.next_temp_with_type(Type::Str)?;
                            self.push_code(
                                Instruction::Call {
                                    dest: Some(dst.clone()),
                                    name: String::from_str("str_concat"),
                                    argc: 2,
                                },
                            );
                            return Ok(Value::Temp(dst));
                        }
                    }
                }
                self.emit_binary(ir_op_of(*op), lhs, rhs)
            },
            ExprKind::Call { callee, generic_args, args } => {
                match self.gen_call(callee, generic_args, args, true)? {
                    Some(v) => Ok(v),
                    None => Ok(Value::Void),
                }
            },
        }
    }

    /// Lowers a call: the arguments in order (those past a variadic function's fixed
    /// parameters stored in a pack struct made for their types), then `Arg` for each,
    /// then the `Call`, into a fresh temporary when `want_result`. The first call of an
    /// instance of a generic or variadic function asks for the instance to be generated.
    fn gen_call(&mut self, callee: &Identifier, generic_args: &Vec<Type>, args: &Vec<Expr>, want_result: bool) -> (res:
        Result<Option<Value>, LowerError>)
        requires
            old(self).wf(),
        ensures
            final(self).wf(),
            res is Ok ==> final(self).extends(&*old(self)),
            res is Ok ==> final(self).code@.len() > old(self).code@.len(),
            res matches Ok(r) ==> (final(self).code@.last().view() matches InstructionV::Call { dest, .. }
                && (want_result ==> (r matches Some(Value::Temp(d)) && dest == Some(d@)))
                && (!want_result ==> (r is None && dest is None))),
            old(self).fn_blueprints.lookup(callee.value@) is None ==> (res is Ok ==> (final(self).code@.last().view()
                matches InstructionV::Call { name, argc, .. } && name == callee.value@ && argc == args@.len())),
            !old(self).has_blueprint(callee.value@) && args@.len() == 0 && generic_args@.len() == 0 && !want_result ==> (
            res is Ok && final(self).code@.len() == old(self).code@.len() + 1),
            !old(self).has_blueprint(callee.value@) && simple_args(*old(self), args@) ==> (res is Ok ==> views(final(self).code@)
                == views(old(self).code@) + arg_code(*old(self), args@) + seq![final(self).code@.last().view()]),
            !old(self).has_blueprint(callee.value@) && generic_args@.len() == 0 && simple_args(*old(self), args@) ==> (res is Ok
                <==> (!want_result || old(self).temps_issued() < usize::MAX)),
        decreases old(self).budget(), args, 0int,
    {
        let blueprint = match self.fn_blueprints.get(callee.value.as_str()) {
            Some(bp) => Some(bp.duplicate()),
            None => None,
        };
        let (generic_params, fixed_param_count, is_variadic_capable) = match &blueprint {
            Some(Stmt::Function { generic_params, params, .. }) => {
                let mut fixed: usize = 0;
                let mut variadic = false;
                let mut k: usize = 0;
                while k < params.len()
                    invariant
                        0 <= k <= params@.len(),
                        fixed <= k,
                    decreases params.len() - k,
                {
                    if params[k].is_variadic {
                        variadic = true;
                    } else {
                        fixed = fixed + 1;
                    }
                    k = k + 1;
                }
                (duplicate_strings(generic_params), fixed, variadic)
            },
            _ => (Vec::new(), args.len(), false),
        };
        let mut substituted_generic_args: Vec<Type> = Vec::new();
        let mut g: usize = 0;
        while g < generic_args.len()
            invariant
                0 <= g <= generic_args@.len(),
                old(self).wf(),
                *self == *old(self),
            decreases generic_args.len() - g,
        {
            let t = self.substitute_type(&generic_args[g], &self.current_substitutions)?;
            substituted_generic_args.push(t);
            g = g + 1;
        }
        let split_at = if fixed_param_count < args.len() {
            fixed_param_count
        } else {
            args.len()
        };
        let fixed_end = if is_variadic_capable {
            split_at
        } else {
            args.len()
        };
        let mut arg_values: Vec<Value> = Vec::new();
        let mut i: usize = 0;
        while i < fixed_end
            invariant
                (!old(self).has_blueprint(callee.value@) && args@.len() == 0 && generic_args@.len() == 0) ==> self.code@.len() == old(self).code@.len(),
                blueprint is None <==> !old(self).has_blueprint(callee.value@),
                blueprint is None ==> !is_variadic_capable && fixed_end == args@.len(),
                0 <= i <= fixed_end,
                fixed_end <= args@.len(),
                arg_values@.len() == i,
                self.wf(),
                self.extends(&*old(self)),
                blueprint is None && simple_args(*old(self), args@) ==> *self == *old(self),
                blueprint is None && simple_args(*old(self), args@) ==> self.code@ == old(self).code@ && forall|j: int|
                    0 <= j < i ==> #[trigger] arg_values@[j].view() == simple_value(*old(self), args@[j])->0,
            decreases fixed_end - i,
        {
            let v = self.gen_expr(&args[i], None)?;
            arg_values.push(v);
            i = i + 1;
        }
        let mut variadic_types: Vec<Type> = Vec::new();
        let mut variadic_values: Vec<Value> = Vec::new();
        if is_variadic_capable {
            let mut j = split_at;
            while j < args.len()
                invariant
                    split_at <= j <= args@.len(),
                    self.wf(),
                    self.extends(&*old(self)),
                    old(self).has_blueprint(callee.value@),
                decreases args.len() - j,
            {
                let v = self.gen_expr(&args[j], None)?;
                let t = match self.expr_type(&args[j])? {
                    Some(t) => t,
                    None => Type::Int,
                };
                variadic_types.push(t);
                variadic_values.push(v);
                j = j + 1;
            }
        }
        let resolved_func_name = if blueprint.is_some() {
            self.mangle_call_name(
                callee.value.as_str(),
                &substituted_generic_args,
                &variadic_types,
                is_variadic_capable,
            )?
        } else {
            callee.value.clone()
        };
        if is_variadic_capable {
            let struct_name = concat("__variadic__", resolved_func_name.as_str());
            self.instantiate_variadic_struct(struct_name.as_str(), &variadic_types, callee.location.duplicate())?;
            let pack_var = self.anon_var("_anon_struct_", Type::Struct(struct_name.clone()))?;
            if (variadic_values.len() as u64) > (i64::MAX as u64) {
                return Err(lower_error("Internal error: too many variadic arguments."));
            }
            let variadic_len = variadic_values.len() as i64;
            let mut k: usize = 0;
            while k < variadic_values.len()
                invariant
                    !((!old(self).has_blueprint(callee.value@) && args@.len() == 0 && generic_args@.len() == 0)),
                    0 <= k <= variadic_values@.len(),
                    old(self).has_blueprint(callee.value@),
                    self.wf(),
                    self.extends(&*old(self)),
                decreases variadic_values.len() - k,
            {
                let fname = variadic::field_name(k);
                self.store_pack_field(struct_name.as_str(), pack_var.as_str(), fname.as_str(), variadic_values[k].duplicate())?;
                k = k + 1;
            }
            self.store_pack_field(
                struct_name.as_str(),
                pack_var.as_str(),
                variadic::length_field(),
                Value::Const(variadic_len),
            )?;
            arg_values.push(Value::Var(pack_var));
        }
        let mut a: usize = 0;
        while a < arg_values.len()
            invariant
                (!old(self).has_blueprint(callee.value@) && args@.len() == 0 && generic_args@.len() == 0) ==> self.code@.len() == old(self).code@.len() + a && arg_values@.len() == 0,
                0 <= a <= arg_values@.len(),
                self.wf(),
                self.extends(&*old(self)),
                blueprint is None && simple_args(*old(self), args@) ==> self.temps_issued() == old(self).temps_issued(),
                blueprint is None && simple_args(*old(self), args@) ==> arg_values@.len() == args@.len() && views(self.code@)
                    == views(old(self).code@) + arg_code(*old(self), args@).take(a as int) && forall|j: int|
                    0 <= j < args@.len() ==> #[trigger] arg_values@[j].view() == simple_value(*old(self), args@[j])->0,
            decreases arg_values.len() - a,
        {
            let ghost before = self.code@;
            self.push_code(Instruction::Arg { value: arg_values[a].duplicate() });
            proof {
                if blueprint is None && simple_args(*old(self), args@) {
                    assert(views(self.code@) =~= views(before).push(
                        InstructionV::Arg { value: arg_values@[a as int].view() },
                    ));
                    assert(arg_code(*old(self), args@).take(a + 1) =~= arg_code(*old(self), args@).take(a as int).push(
                        InstructionV::Arg { value: simple_value(*old(self), args@[a as int])->0 },
                    ));
                }
            }
            a = a + 1;
        }
        proof {
            if blueprint is None && simple_args(*old(self), args@) {
                assert(arg_code(*old(self), args@).take(args@.len() as int) =~= arg_code(*old(self), args@));
            }
        }
        if blueprint.is_some() && !self.instantiated_fns.contains_key(resolved_func_name.as_str()) {
            self.instantiated_fns.insert(resolved_func_name.clone(), ());
            self.deferred_instantiations.push(
                (callee.value.clone(), clone_types(&substituted_generic_args), clone_types(&variadic_types)),
            );
            if let Some(Stmt::Function { rttype, .. }) = &blueprint {
                let mut substitutions: StrMap<Type> = StrMap::new();
                let mut q: usize = 0;
                while q < generic_params.len() && q < substituted_generic_args.len()
                    invariant
                        substitutions.wf(),
                    decreases generic_params.len() - q,
                {
                    substitutions.insert(generic_params[q].clone(), clone_type(&substituted_generic_args[q]));
                    q = q + 1;
                }
                let unres_ty = match rttype {
                    Some(t) => clone_type(t),
                    None => Type::Void,
                };
                let sub_ty = self.substitute_type(&unres_ty, &substitutions)?;
                std::mem::swap(&mut self.current_substitutions, &mut substitutions);
                let resolved = self.resolve_type(&sub_ty);
                std::mem::swap(&mut self.current_substitutions, &mut substitutions);
                let resolved_rttype = resolved?;
                self.var_types.insert(resolved_func_name.clone(), resolved_rttype);
            }
        }
        let return_ty = match self.var_types.get(resolved_func_name.as_str()) {
            Some(t) => clone_type(t),
            None => Type::Int,
        };
        let argc = arg_values.len();
        if want_result {
            let dst = self.next_temp_with_type(return_ty)?;
            self.push_code(Instruction::Call { dest: Some(dst.clone()), name: resolved_func_name, argc });
            Ok(Some(Value::Temp(dst)))
        } else {
            self.push_code(Instruction::Call { dest: None, name: resolved_func_name, argc });
            Ok(None)
        }
    }

    /// Stores `val` in the field `field_name` of the pack variable `pack_var`, whose type
    /// is the struct `struct_name`.
    fn store_pack_field(&mut self, struct_name: &str, pack_var: &str, field_name: &str, val: Value) -> (res: Result<
        (),
        LowerError,
    >)
        requires
            old(self).wf(),
        ensures
            final(self).wf(),
            res is Ok ==> final(self).extends(&*old(self)),
            res is Ok ==> (final(self).instrs().last().view() matches InstructionV::Store { source, .. } && source
                == val.view()),
            !(old(self).struct_defs.lookup(struct_name@) matches Some(l) && key_lookup(offset_entries(l.field_offsets), field_name@) is Some)
                ==> res is Err,
    {
        let (offset, field_ty) = match self.field_slot(struct_name, field_name, false) {
            Some(Some(slot)) => slot,
            _ => {
                return Err(lower_error3("ICE: the pack field '", field_name, "' has no slot."));
            },
        };
        let base_addr_temp = self.emit_ref(Type::Struct(String::from_str(struct_name)), Value::Var(String::from_str(pack_var)))?;
        let slot_addr_temp = self.emit_offset(field_ty, Value::Temp(base_addr_temp), Value::Const(offset))?;
        self.push_code(Instruction::Store { ptr: Value::Temp(slot_addr_temp), source: val });
        Ok(())
    }
}


/// Whether two operands are the same.
fn same_value(a: &Value, b: &Value) -> (res: bool)
    ensures
        res == (a.view() == b.view()),
{
    match (a, b) {
        (Value::Const(x), Value::Const(y)) => *x == *y,
        (Value::Temp(x), Value::Temp(y)) => str_eq(x.as_str(), y.as_str()),
        (Value::Var(x), Value::Var(y)) => str_eq(x.as_str(), y.as_str()),
        (Value::Void, Value::Void) => true,
        (Value::Str(x), Value::Str(y)) => str_eq(x.as_str(), y.as_str()),
        (Value::Char(x), Value::Char(y)) => *x == *y,
        (Value::Bool(x), Value::Bool(y)) => *x == *y,
        (Value::Double(x), Value::Double(y)) => *x == *y,
        (Value::Float(x), Value::Float(y)) => *x == *y,
        (Value::Nil, Value::Nil) => true,
        _ => false,
    }
}

/// Whether the entries of `s` are in order of their offsets.
pub open spec fn sorted_by_offset(s: Seq<(i64, Type)>) -> bool {
    forall|i: int, j: int| 0 <= i < j < s.len() ==> s[i].0 <= s[j].0
}

/// The entries of `v` in order of their offsets, entries of equal offset in the order
/// they came in.
fn sort_by_offset(v: Vec<(i64, Type)>) -> (res: Vec<(i64, Type)>)
    ensures
        res@.len() == v@.len(),
        sorted_by_offset(res@),
{
    let mut out: Vec<(i64, Type)> = Vec::new();
    let mut rest = v;
    let ghost n = rest@.len();
    while rest.len() > 0
        invariant
            sorted_by_offset(out@),
            out@.len() + rest@.len() == n,
        decreases rest@.len(),
    {
        let x = rest.remove(0);
        let mut p: usize = 0;
        while p < out.len() && out[p].0 <= x.0
            invariant
                0 <= p <= out@.len(),
                forall|j: int| 0 <= j < p ==> out@[j].0 <= x.0,
            decreases out@.len() - p,
        {
            p = p + 1;
        }
        let ghost before = out@;
        let ghost xo = x.0;
        let ghost pi = p as int;
        assert(pi < before.len() ==> before[pi].0 > xo);
        out.insert(p, x);
        proof {
            assert(out@ == before.insert(pi, out@[pi]));
            assert forall|i: int, j: int| 0 <= i < j < out@.len() implies out@[i].0 <= out@[j].0 by {
                if j < pi {
                    assert(out@[i] == before[i] && out@[j] == before[j]);
                } else if j == pi {
                    assert(out@[i] == before[i]);
                } else {
                    assert(out@[j] == before[j - 1]);
                    if i < pi {
                        assert(out@[i] == before[i]);
                    } else if i == pi {
                        assert(before[pi].0 <= before[j - 1].0 || pi == j - 1);
                    } else {
                        assert(out@[i] == before[i - 1]);
                    }
                }
            }
        }
    }
    out
}

/// `s` may stand at the top level of a program: a function, an external function, a
/// struct, a constant or an enum.
pub open spec fn top_level_declaration(s: Stmt) -> bool {
    s is Function || s is Extern || s is Struct || s is Constant || s is Enum
}

/// Some parameter of `params` takes the remaining arguments.
pub open spec fn has_variadic_param(params: Seq<Parameter>) -> bool {
    exists|k: int| 0 <= k < params.len() && #[trigger] params[k].is_variadic
}

/// What lowering the function `name` adds to the code `before`, giving `after`: nothing
/// for a generic or variadic function, which is kept to be instantiated; for any other,
/// its label, then a parameter for each of its parameters (named after the function),
/// and code that ends with a `return`.
pub open spec fn function_lowered(
    name: Seq<char>,
    generic: bool,
    params: Seq<Parameter>,
    before: Seq<Instruction>,
    after: Seq<Instruction>,
) -> bool {
    if generic || has_variadic_param(params) {
        after == before
    } else {
        &&& after.len() >= before.len() + params.len() + 2
        &&& after.subrange(0, before.len() as int) == before
        &&& after[before.len() as int].view() == InstructionV::FunctionLabel(name)
        &&& forall|j: int|
            0 <= j < params.len() ==> #[trigger] after[before.len() + 1 + j].view() == (InstructionV::Param {
                p: name + "::"@ + params[j].name.value@,
            })
        &&& after.last().view() is Return
    }
}

/// The `Param` instructions of the parameters `params` of the function `name`, in order.
pub open spec fn param_code(name: Seq<char>, params: Seq<Parameter>) -> Seq<InstructionV> {
    Seq::new(params.len(), |j: int| InstructionV::Param { p: name + "::"@ + params[j].name.value@ })
}

/// The code of a function's body.
pub open spec fn fn_body_code(b: Seq<InstructionV>) -> Seq<InstructionV> {
    b
}

/// `after` is `before` with the code of the function `name`: its label, its parameters,
/// its body's code, and a `return` of nothing unless the body ends with a `return`.
pub open spec fn function_code(
    name: Seq<char>,
    params: Seq<Parameter>,
    body: Seq<Stmt>,
    before: Seq<InstructionV>,
    after: Seq<InstructionV>,
) -> bool {
    exists|b: Seq<InstructionV>|
        #![trigger fn_body_code(b)]
        after == before + seq![InstructionV::FunctionLabel(name)] + param_code(name, params) + b + (if body.len() > 0
            && body.last() is Return {
            Seq::<InstructionV>::empty()
        } else {
            seq![InstructionV::Return { value: ValueV::Void }]
        }) && (body.len() == 0 ==> b.len() == 0)
}

/// `program` is one function without parameters, generic parameters or return type,
/// whose body is a fragment that `o` lowers within its label and function counters.
pub open spec fn lone_fragment_function(o: IRGen, program: Program) -> bool {
    program.statements@.len() == 1 && (program.statements@[0] matches Stmt::Function {
            name,
            generic_params,
            params,
            body,
            rttype: None,
            ..
        } && generic_params@.len() == 0 && params@.len() == 0 && o.nothing_deferred() && exists|g: IRGen|
            #[trigger] g.entered_function(o, name.value@, params@) && (frag_block(
                g,
                body@,
                o.labels_issued(),
                o.exit_labels(),
            ) matches Some((c, k)) && o.labels_issued() + k <= usize::MAX && o.functions_issued()
                < usize::MAX))
}

impl IRGen {
    /// Lowers a statement. Declarations are recorded (a generic or variadic function is
    /// kept to be instantiated later); a function gets its label, its parameters and its
    /// body; control flow becomes labels and jumps (an `if` whose conditions are known
    /// constants gives only the branch taken).
    pub fn gen_stmt(&mut self, stmt: &Stmt) -> (res: Result<(), LowerError>)
        requires
            old(self).wf(),
            stmt_no_use(*stmt),
        ensures
            final(self).wf(),
            res is Ok ==> final(self).extends(&*old(self)),
            res is Ok ==> final(self).function_name() == old(self).function_name(),
            stmt matches Stmt::Return { .. } ==> (res is Ok ==> final(self).instrs().last().view() is Return),
            stmt matches Stmt::Break { .. } ==> (res is Ok ==> final(self).instrs().last().view() is Jump),
            stmt matches Stmt::While { .. } ==> (res is Ok ==> final(self).instrs().last().view() is Label),
            stmt matches Stmt::Extern { name, .. } ==> (res is Ok && final(self).instrs() == old(self).instrs().push(
                Instruction::Extern { fnname: name.value },
            )),
            stmt matches Stmt::Return { value: None, .. } ==> (res is Ok && final(self).instrs().len() == old(
                self).instrs().len() + 1 && final(self).instrs().last().view() == (InstructionV::Return {
                value: ValueV::Void,
            })),
            stmt is Constant ==> (res is Ok && final(self).instrs() == old(self).instrs()),
            frag_stmt(*old(self), *stmt, old(self).labels_issued(), old(self).exit_labels()) matches Some((c, k)) ==> (
            (old(self).labels_issued() + k <= usize::MAX ==> res is Ok) && (res is Ok ==> views(final(self).instrs())
                == views(old(self).instrs()) + c && final(self).labels_issued() == old(self).labels_issued() + k
                && final(self).frame_same(*old(self)))),
            stmt is Break ==> (res is Ok <==> old(self).in_loop()),
            stmt is Break ==> (res is Ok ==> views(final(self).instrs()) == views(old(self).instrs()).push(
                InstructionV::Jump(old(self).innermost_exit()),
            )),
            stmt matches Stmt::While { cond, body } ==> (res is Ok ==> exists|
                c: Seq<InstructionV>,
                v: ValueV,
                b: Seq<InstructionV>,
            |
                #![trigger while_code(c, v, b)]
                views(final(self).instrs()) == views(old(self).instrs()) + seq![
                    InstructionV::Label(label_name(old(self).labels_issued() + 1)),
                ] + c + seq![
                    InstructionV::JumpIfFalse { cond: v, target: label_name(old(self).labels_issued() + 2) },
                ] + b + seq![
                    InstructionV::Jump(label_name(old(self).labels_issued() + 1)),
                    InstructionV::Label(label_name(old(self).labels_issued() + 2)),
                ] && (cond.kind matches ExprKind::Literal(l) ==> (!(l is Arr) ==> c.len() == 0 && v
                    == literal_value_v(l))) && (body@.len() == 0 ==> b.len() == 0) && while_code(c, v, b) == (c, v, b)),
            dynamic_if(*stmt) ==> (res is Ok ==> if_lowered(
                *stmt,
                views(old(self).instrs()),
                views(final(self).instrs()),
                old(self).labels_issued(),
            )),
            stmt matches Stmt::Enum { name, options } ==> ((options@.len() <= i64::MAX + 1 ==> res is Ok) && (res is Ok
                ==> final(self).instrs() == old(self).instrs() && (distinct_idents(options@)
                ==> final(self).enum_variants(name.value@) == Some(numbered_variants(options@))))),
            stmt matches Stmt::Function { generic_params, params, .. } ==> (generic_params@.len() > 0
                || has_variadic_param(params@) ==> res is Ok),
            stmt matches Stmt::Function { name, generic_params, params, body, .. } ==> (generic_params@.len() == 0
                && !has_variadic_param(params@) ==> (res is Ok ==> function_code(
                name.value@,
                params@,
                body@,
                views(old(self).instrs()),
                views(final(self).instrs()),
            ))),
            stmt matches Stmt::Function { name, generic_params, params, .. } ==> (res is Ok ==> function_lowered(
                name.value@,
                generic_params@.len() > 0,
                params@,
                old(self).instrs(),
                final(self).instrs(),
            )),
            stmt is For ==> (res is Ok ==> final(self).instrs().last().view() is Label),
            stmt matches Stmt::Assignment { ident, expr, .. } ==> (res is Ok ==> (final(self).instrs().last().view()
                matches InstructionV::Assign { dst, src } && dst == old(self).function_name() + "::"@ + ident.value@
                && (expr is None ==> (src == ValueV::Const(0) || src == ValueV::Bool(false) || src == ValueV::Char(
                '\0'))))),
            stmt matches Stmt::Assignment { ident, vtype: None, expr: Some(e) } ==> (e.kind matches ExprKind::Literal(l)
                ==> ((l is Int || l is Bool || l is Char) && old(self).type_of_name(
                old(self).function_name() + "::"@ + ident.value@,
            ) is None ==> res is Ok && views(final(self).instrs()) == views(old(self).instrs()).push(
                InstructionV::Assign { dst: old(self).function_name() + "::"@ + ident.value@, src: literal_value_v(l) },
            ))),
            stmt matches Stmt::Assignment { ident, vtype: None, expr: Some(e) } ==> (simple_value(*old(self), *e) matches Some(
                v,
            ) ==> (old(self).type_of_name(old(self).function_name() + "::"@ + ident.value@) is None ==> (res is Ok
                ==> views(final(self).instrs()) == views(old(self).instrs()).push(
                InstructionV::Assign { dst: old(self).function_name() + "::"@ + ident.value@, src: v },
            )))),
            stmt matches Stmt::Reassignment { ident, expr } ==> (simple_value(*old(self), *expr) matches Some(v) ==> (!(old(
                self,
            ).type_of_name(old(self).function_name() + "::"@ + ident.value@) matches Some(ty) && (ty is Array
                || ty is Struct)) ==> res is Ok && views(final(self).instrs()) == views(old(self).instrs()).push(
                InstructionV::Assign { dst: old(self).function_name() + "::"@ + ident.value@, src: v },
            ))),
            stmt matches Stmt::Reassignment { ident, .. } ==> (res is Ok ==> (!(old(self).type_of_name(
                old(self).function_name() + "::"@ + ident.value@,
            ) matches Some(ty) && (ty is Array || ty is Struct)) ==> (final(self).instrs().last().view() matches
                InstructionV::Assign { dst, .. } && dst == old(self).function_name() + "::"@ + ident.value@))),
            simple_fn_decl(*stmt) matches Some(n) ==> ((res is Ok <==> old(self).functions_issued() < usize::MAX) && (
            res is Ok ==> views(final(self).instrs()) == views(old(self).instrs()) + seq![
                InstructionV::FunctionLabel(n),
                InstructionV::Return { value: ValueV::Void },
            ] && final(self).nothing_deferred() == old(self).nothing_deferred() && final(self).functions_issued()
                == old(self).functions_issued() + 1)),
            stmt matches Stmt::Function { name, generic_params, params, body, rttype, .. } ==> (generic_params@.len()
                == 0 && plain_params(params@) && (rttype matches Some(t) ==> plain_type(*t)) ==> forall|g: IRGen|
                #[trigger] g.entered_function(*old(self), name.value@, params@) ==> (frag_block(
                    g,
                    body@,
                    old(self).labels_issued(),
                    old(self).exit_labels(),
                ) matches Some((c, k)) ==> ((old(self).labels_issued() + k <= usize::MAX && old(
                    self,
                ).functions_issued() < usize::MAX ==> res is Ok) && (res is Ok ==> views(final(self).instrs())
                    == views(old(self).instrs()) + seq![InstructionV::FunctionLabel(name.value@)] + param_code(
                    name.value@,
                    params@,
                ) + c + (if body@.len() > 0 && body@.last() is Return {
                    Seq::<InstructionV>::empty()
                } else {
                    seq![InstructionV::Return { value: ValueV::Void }]
                }) && final(self).labels_issued() == old(self).labels_issued() + k && final(self).type_of_name(
                    name.value@,
                ) == Some(recorded_return(*rttype)) && final(self).nothing_deferred() == old(
                    self,
                ).nothing_deferred())))),
            stmt matches Stmt::Function { name, generic_params, params, body, rttype, .. } ==> (generic_params@.len()
                == 0 && plain_params(params@) && (rttype matches Some(t) ==> plain_type(*t)) && closed_block(body@)
                ==> (frag_block(*old(self), body@, old(self).labels_issued(), old(self).exit_labels()) matches Some(
                (c, k),
            ) ==> ((old(self).labels_issued() + k <= usize::MAX && old(self).functions_issued() < usize::MAX
                ==> res is Ok) && (res is Ok ==> views(final(self).instrs()) == views(old(self).instrs()) + seq![
                InstructionV::FunctionLabel(name.value@),
            ] + param_code(name.value@, params@) + c + (if body@.len() > 0 && body@.last() is Return {
                Seq::<InstructionV>::empty()
            } else {
                seq![InstructionV::Return { value: ValueV::Void }]
            }) && final(self).labels_issued() == old(self).labels_issued() + k && final(self).functions_issued()
                == old(self).functions_issued() + 1 && final(self).exit_labels() == old(self).exit_labels()
                && final(self).nothing_deferred() == old(self).nothing_deferred())))),
            simple_fn_decl(*stmt) matches Some(n) ==> (res is Ok ==> final(self).type_of_name(n) == Some(TypeV::Void)),
        decreases stmt, 3int,
    {
        match stmt {
            Stmt::Use { .. } => {
                proof {
                    assert(false);
                }
                Ok(())
            },
            Stmt::Enum { name, options } => {
                let mut variants = new_variant_map();
                let mut i: usize = 0;
                while i < options.len()
                    invariant
                        0 <= i <= options@.len(),
                        stmt matches Stmt::Enum { options: os, .. } && os@ == options@,
                        *self == *old(self),
                        self.wf(),
                        distinct_keys(variant_entries(variants)),
                        distinct_idents(options@) ==> variant_entries(variants) == numbered_variants(
                            options@.take(i as int),
                        ),
                    decreases options.len() - i,
                {
                    if (i as u64) > (i64::MAX as u64) {
                        return Err(lower_error("Internal error: an enum has too many variants."));
                    }
                    let ghost before = variant_entries(variants);
                    insert_variant(&mut variants, options[i].value.clone(), i as i64);
                    proof {
                        if distinct_idents(options@) {
                            assert forall|j: int| 0 <= j < before.len() implies before[j].0 != options@[i as int].value@ by {
                                assert(before[j] == (options@[j].value@, j as i64));
                            }
                            assert(key_position(before, options@[i as int].value@) is None);
                            assert(variant_entries(variants) =~= numbered_variants(options@.take(i + 1)));
                        }
                    }
                    i = i + 1;
                }
                proof {
                    assert(options@.take(options@.len() as int) =~= options@);
                }
                self.enum_defs.insert(name.value.clone(), variants);
                Ok(())
            },
            Stmt::Struct { name, generic_params, fields } => {
                if generic_params.len() > 0 {
                    self.struct_blueprints.insert(
                        name.value.clone(),
                        (duplicate_strings(generic_params), duplicate_params(fields)),
                    );
                    Ok(())
                } else {
                    let empty: StrMap<Type> = StrMap::new();
                    self.instantiate_struct_layout(name.value.clone(), fields, &empty, usize::MAX)
                }
            },
            Stmt::Constant { .. } => {
                proof {
                    assert(views(self.code@) =~= views(self.code@) + Seq::<InstructionV>::empty());
                }
                Ok(())
            },
            Stmt::Assignment { ident, vtype, expr } => {
                let mangled_name = concat3(self.current_function.as_str(), "::", ident.value.as_str());
                if let Some(explicit_ty) = vtype {
                    let resolved = self.resolve_type(explicit_ty)?;
                    self.var_types.insert(mangled_name.clone(), resolved);
                }
                let declared = match vtype {
                    Some(t) => Some(clone_type(t)),
                    None => match self.var_types.get(mangled_name.as_str()) {
                        Some(t) => Some(clone_type(t)),
                        None => None,
                    },
                };
                let current_ty = match declared {
                    Some(t) => Some(self.resolve_type(&t)?),
                    None => None,
                };
                let is_aggregate = matches!(
                    current_ty,
                    Some(Type::Array { .. }) | Some(Type::Struct(_)) | Some(Type::GenericInstance { .. }) | Some(
                        Type::VariadicPack { .. },
                    )
                );
                let target_var = Value::Var(mangled_name.clone());
                if let Some(expr_node) = expr {
                    if is_aggregate {
                        let value = self.gen_expr(expr_node, Some(target_var))?;
                        self.push_code(Instruction::Assign { dst: mangled_name, src: value });
                    } else {
                        let value = self.gen_expr(expr_node, None)?;
                        if vtype.is_none() {
                            let computed_ty = self.get_value_type(&value);
                            let resolved_computed = self.resolve_type(&computed_ty)?;
                            self.var_types.insert(mangled_name.clone(), resolved_computed);
                        }
                        let ghost before = self.code@;
                        self.push_code(Instruction::Assign { dst: mangled_name, src: value });
                        proof {
                            assert(views(self.code@) =~= views(before).push(self.code@.last().view()));
                        }
                    }
                } else {
                    let src = match current_ty {
                        Some(Type::Bool) => Value::Bool(false),
                        Some(Type::Char) => Value::Char('\0'),
                        _ => Value::Const(0),
                    };
                    self.push_code(Instruction::Assign { dst: mangled_name, src });
                }
                Ok(())
            },
            Stmt::Reassignment { ident, expr } => {
                let mangled_name = concat3(self.current_function.as_str(), "::", ident.value.as_str());
                let is_aggregate = matches!(
                    self.var_types.get(mangled_name.as_str()),
                    Some(Type::Array { .. }) | Some(Type::Struct(_))
                );
                let target_var = Value::Var(mangled_name.clone());
                if is_aggregate {
                    let src_val = self.gen_expr(expr, Some(target_var.duplicate()))?;
                    if !same_value(&src_val, &target_var) {
                        self.push_code(Instruction::Store { ptr: target_var, source: src_val });
                    }
                } else {
                    let value = self.gen_expr(expr, None)?;
                    let ghost before = self.code@;
                    self.push_code(Instruction::Assign { dst: mangled_name, src: value });
                    proof {
                        assert(views(self.code@) =~= views(before).push(self.code@.last().view()));
                    }
                }
                Ok(())
            },
            Stmt::Expr(expr) => {
                if let ExprKind::Call { callee, generic_args, args } = &expr.kind {
                    self.gen_call(callee, generic_args, args, false)?;
                } else {
                    self.gen_expr(expr, None)?;
                }
                Ok(())
            },
            Stmt::If { .. } => self.gen_if(stmt),
            Stmt::While { .. } => self.gen_while(stmt),
            Stmt::Break { .. } => {
                let n = self.loop_exits.len();
                if n == 0 {
                    return Err(lower_error("Internal compiler error: break statement unvalidated by semantic analyzer"));
                }
                let exit_label = self.loop_exits[n - 1].clone();
                proof {
                    assert(old(self).exit_labels().last() == exit_label@);
                }
                self.push_code(Instruction::Jump(exit_label));
                proof {
                    assert(views(self.code@) =~= views(old(self).code@) + seq![
                        InstructionV::Jump(old(self).exit_labels().last()),
                    ]);
                }
                Ok(())
            },
            Stmt::ForIn { .. } => self.gen_for_in(stmt),
            Stmt::For { init, cond, step, body } => {
                let start = self.fresh_label()?;
                let end = self.fresh_label()?;
                self.gen_stmt(init)?;
                self.push_code(Instruction::Label(start.clone()));
                let cond_val = self.gen_expr(cond, None)?;
                self.push_code(Instruction::JumpIfFalse { cond: cond_val, target: end.clone() });
                self.gen_block(stmt, body)?;
                self.gen_stmt(step)?;
                self.push_code(Instruction::Jump(start));
                self.push_code(Instruction::Label(end));
                Ok(())
            },
            Stmt::Function { .. } => self.gen_function(stmt),
            Stmt::Return { value, .. } => {
                match value {
                    Some(e) => {
                        let val = self.gen_expr(e, None)?;
                        let ghost mid = *self;
                        let ghost vv = val.view();
                        self.push_code(Instruction::Return { value: val });
                        proof {
                            assert(views(self.code@) =~= views(mid.code@) + seq![InstructionV::Return { value: vv }]);
                        }
                    },
                    None => {
                        self.push_code(Instruction::Return { value: Value::Void });
                        proof {
                            assert(views(self.code@) =~= views(old(self).code@) + seq![
                                InstructionV::Return { value: ValueV::Void },
                            ]);
                        }
                    },
                }
                Ok(())
            },
            Stmt::Extern { name, rttype, .. } => {
                let return_type = match rttype {
                    Some(t) => clone_type(t),
                    None => Type::Void,
                };
                self.var_types.insert(name.value.clone(), return_type);
                self.push_code(Instruction::Extern { fnname: name.value.clone() });
                Ok(())
            },
            Stmt::DerefReassignment { target, expr } => self.gen_deref_assignment(target, expr),
        }
    }

    /// Lowers `while (cond) { body }`: a label at the start, a jump to the end label when
    /// the condition is false, the body (where `break` jumps to the end label), a jump
    /// back to the start, and the end label.
    #[verifier::spinoff_prover]
    #[verifier::rlimit(50)]
    fn gen_while(&mut self, stmt: &Stmt) -> (res: Result<(), LowerError>)
        requires
            old(self).wf(),
            stmt_no_use(*stmt),
            stmt is While,
        ensures
            final(self).wf(),
            res is Ok ==> final(self).extends(&*old(self)),
            res is Ok ==> final(self).instrs().last().view() is Label,
            stmt matches Stmt::While { cond, body } ==> (res is Ok ==> exists|
                c: Seq<InstructionV>,
                v: ValueV,
                b: Seq<InstructionV>,
            |
                #![trigger while_code(c, v, b)]
                views(final(self).instrs()) == views(old(self).instrs()) + seq![
                    InstructionV::Label(label_name(old(self).labels_issued() + 1)),
                ] + c + seq![
                    InstructionV::JumpIfFalse { cond: v, target: label_name(old(self).labels_issued() + 2) },
                ] + b + seq![
                    InstructionV::Jump(label_name(old(self).labels_issued() + 1)),
                    InstructionV::Label(label_name(old(self).labels_issued() + 2)),
                ] && (cond.kind matches ExprKind::Literal(l) ==> (!(l is Arr) ==> c.len() == 0 && v
                    == literal_value_v(l))) && (body@.len() == 0 ==> b.len() == 0) && while_code(c, v, b) == (c, v, b)),
            frag_stmt(*old(self), *stmt, old(self).labels_issued(), old(self).exit_labels()) matches Some((c, k)) ==> (
            (old(self).labels_issued() + k <= usize::MAX ==> res is Ok) && (res is Ok ==> views(final(self).instrs())
                == views(old(self).instrs()) + c && final(self).labels_issued() == old(self).labels_issued() + k
                && final(self).frame_same(*old(self)))),
        decreases stmt, 1int,
    {
        let (cond, body) = match stmt {
            Stmt::While { cond, body } => (cond, body),
            _ => {
                proof {
                    assert(false);
                }
                return Ok(());
            },
        };
        proof {
            assert(decreases_to!(stmt => stmt->While_body));
        }
        let ghost frag = frag_stmt(*old(self), *stmt, old(self).labels_issued(), old(self).exit_labels()) is Some;
        let start = self.fresh_label()?;
        let end = self.fresh_label()?;
        let ghost g0 = *self;
        self.loop_exits.push(end.clone());
        let ghost g1 = *self;
        proof {
            assert(g1.exit_labels() =~= old(self).exit_labels().push(end@));
            assert(g1.same_env(*old(self)));
            lemma_frag_block_env(g1, *old(self), body@, g1.labels_issued(), g1.exit_labels());
        }
        self.push_code(Instruction::Label(start.clone()));
        let ghost g2 = *self;
        let cond_val = self.gen_expr(cond, None)?;
        let ghost g3 = *self;
        self.push_code(Instruction::JumpIfFalse { cond: cond_val.duplicate(), target: end.clone() });
        let ghost g4 = *self;
        proof {
            if frag {
                assert(g4.loop_exits@ == g1.loop_exits@);
                assert(g4.exit_labels() =~= g1.exit_labels());
                assert(g4.same_env(*old(self)));
                lemma_frag_block_env(g4, *old(self), body@, g4.labels_issued(), g4.exit_labels());
            }
        }
        self.gen_block(stmt, body)?;
        let ghost g5 = *self;
        self.loop_exits.pop();
        proof {
            if frag {
                assert(self.loop_exits@ =~= old(self).loop_exits@);
            }
        }
        self.push_code(Instruction::Jump(start.clone()));
        self.push_code(Instruction::Label(end.clone()));
        proof {
            let c = views(g3.code@).subrange(g2.code@.len() as int, g3.code@.len() as int);
            let b = views(g5.code@).subrange(g4.code@.len() as int, g5.code@.len() as int);
            lemma_views_extend(g2.code@, g3.code@);
            lemma_views_extend(g4.code@, g5.code@);
            assert(views(g2.code@) =~= views(old(self).code@).push(InstructionV::Label(start@)));
            assert(views(g4.code@) =~= views(g3.code@).push(
                InstructionV::JumpIfFalse { cond: cond_val.view(), target: end@ },
            ));
            assert(views(self.code@) =~= views(g5.code@).push(InstructionV::Jump(start@)).push(
                InstructionV::Label(end@),
            ));
            assert(views(self.code@) =~= views(old(self).code@) + seq![InstructionV::Label(start@)] + c
                + seq![InstructionV::JumpIfFalse { cond: cond_val.view(), target: end@ }] + b + seq![
                InstructionV::Jump(start@),
                InstructionV::Label(end@),
            ]);
            assert(start@ == label_name(old(self).labels_issued() + 1));
            assert(end@ == label_name(old(self).labels_issued() + 2));
            if g3.code@.len() == g2.code@.len() {
                assert(c =~= Seq::<InstructionV>::empty());
            }
            if g5.code@.len() == g4.code@.len() {
                assert(b =~= Seq::<InstructionV>::empty());
            }
            assert(while_code(c, cond_val.view(), b) == (c, cond_val.view(), b));
        }
        Ok(())
    }

    /// Lowers the statements of `body`, a block of `stmt`, in order.
    fn gen_block(&mut self, stmt: &Stmt, body: &Vec<Stmt>) -> (res: Result<(), LowerError>)
        requires
            old(self).wf(),
            stmts_no_use(body@),
            decreases_to!(stmt => body),
        ensures
            final(self).wf(),
            res is Ok ==> final(self).extends(&*old(self)),
            body@.len() == 0 ==> res is Ok && final(self).instrs() == old(self).instrs(),
            body@.len() > 0 && body@.last() is Return ==> (res is Ok ==> final(self).instrs().last().view() is Return),
            frag_block(*old(self), body@, old(self).labels_issued(), old(self).exit_labels()) matches Some((c, k)) ==> (
            (old(self).labels_issued() + k <= usize::MAX ==> res is Ok) && (res is Ok ==> views(final(self).instrs())
                == views(old(self).instrs()) + c && final(self).labels_issued() == old(self).labels_issued() + k
                && final(self).frame_same(*old(self)))),
        decreases stmt, 0int,
    {
        proof {
            lemma_stmts_no_use(body@);
        }
        let ghost n0 = self.labels_issued();
        let ghost ex0 = self.exit_labels();
        let ghost whole = frag_block(*old(self), body@, n0, ex0);
        let mut i: usize = 0;
        while i < body.len()
            invariant
                0 <= i <= body@.len(),
                self.wf(),
                self.extends(&*old(self)),
                i > 0 && body@[i - 1] is Return ==> self.instrs().last().view() is Return,
                i == 0 ==> self.instrs() == old(self).instrs(),
                forall|j: int| 0 <= j < body@.len() ==> #[trigger] stmt_no_use(body@[j]),
                decreases_to!(stmt => body),
                n0 == old(self).labels_issued(),
                ex0 == old(self).exit_labels(),
                whole == frag_block(*old(self), body@, n0, ex0),
                whole is Some ==> (frag_block(*old(self), body@.take(i as int), n0, ex0) matches Some((c, k)) && views(
                    self.code@,
                ) == views(old(self).code@) + c && self.labels_issued() == n0 + k && self.frame_same(*old(self))),
            decreases body.len() - i,
        {
            proof {
                assert(decreases_to!(body => body@));
                assert(decreases_to!(body@ => body@[i as int]));
            }
            let ghost before = *self;
            proof {
                if whole is Some {
                    lemma_frag_block_prefix(*old(self), body@, i + 1, n0, ex0);
                    lemma_frag_block_prefix(*old(self), body@, i as int, n0, ex0);
                    assert(body@.take(i + 1).drop_last() =~= body@.take(i as int));
                    assert(body@.take(i + 1).last() == body@[i as int]);
                    assert(before.exit_labels() =~= ex0);
                    assert(before.same_env(*old(self)));
                    lemma_frag_stmt_env(before, *old(self), body@[i as int], before.labels_issued(), ex0);
                }
            }
            self.gen_stmt(&body[i])?;
            proof {
                if whole is Some {
                    assert(body@.take(i + 1).drop_last() =~= body@.take(i as int));
                }
            }
            i = i + 1;
        }
        proof {
            if whole is Some {
                assert(body@.take(body@.len() as int) =~= body@);
            }
        }
        Ok(())
    }
}


impl IRGen {
    /// Lowers an `if`. When its condition and, as far as needed, those of its `else if`
    /// branches fold to known booleans, only the branch taken is lowered; otherwise each
    /// condition jumps past its body to the next one when false, and each body jumps to
    /// the end.
    #[verifier::spinoff_prover]
    #[verifier::rlimit(60)]
    fn gen_if(&mut self, stmt: &Stmt) -> (res: Result<(), LowerError>)
        requires
            old(self).wf(),
            stmt_no_use(*stmt),
            stmt is If,
        ensures
            final(self).wf(),
            res is Ok ==> final(self).extends(&*old(self)),
            stmt matches Stmt::If { cond, then_branch, .. } ==> (cond.kind == ExprKind::Literal(Literal::Bool(true))
                && then_branch@.len() == 0 ==> res is Ok && final(self).instrs() == old(self).instrs()),
            dynamic_if(*stmt) ==> (res is Ok ==> if_lowered(
                *stmt,
                views(old(self).instrs()),
                views(final(self).instrs()),
                old(self).labels_issued(),
            )),
            frag_stmt(*old(self), *stmt, old(self).labels_issued(), old(self).exit_labels()) matches Some((c, k)) ==> (
            (old(self).labels_issued() + k <= usize::MAX ==> res is Ok) && (res is Ok ==> views(final(self).instrs())
                == views(old(self).instrs()) + c && final(self).labels_issued() == old(self).labels_issued() + k
                && final(self).frame_same(*old(self)))),
        decreases stmt, 2int,
    {
        let (cond, then_branch, else_if_branches, else_branch) = match stmt {
            Stmt::If { cond, then_branch, else_if_branches, else_branch } => (
                cond,
                then_branch,
                else_if_branches,
                else_branch,
            ),
            _ => {
                proof {
                    assert(false);
                }
                return Ok(());
            },
        };
        proof {
            lemma_branches_no_use(else_if_branches@);
            assert(decreases_to!(stmt => stmt->If_then_branch));
        }
        let ghost n = old(self).labels_issued();
        let ghost ex = old(self).exit_labels();
        let ghost frag = frag_stmt(*old(self), *stmt, n, ex) is Some;
        let ghost tk = (frag_block(*old(self), then_branch@, n + 2, ex)->0).1;
        let ghost whole_ei = frag_elseifs(
            *old(self),
            else_if_branches@,
            label_name(n + 2),
            label_name(n + 1),
            n + 2 + tk,
            ex,
        );
        let ghost ek = (whole_ei->0).1;
        let ghost total = (frag_stmt(*old(self), *stmt, n, ex)->0).1;
        if let Some(ConstVal::Bool(is_true)) = self.eval_const(cond) {
            if is_true {
                return self.gen_block(stmt, then_branch);
            }
            let mut resolved_statically = true;
            let mut i: usize = 0;
            while i < else_if_branches.len()
                invariant
                    cond.kind != ExprKind::Literal(Literal::Bool(true)),
                    0 <= i <= else_if_branches@.len(),
                    self.wf(),
                    *self == *old(self),
                    !dynamic_if(*stmt),
                    forall|j: int| 0 <= j < else_if_branches@.len() ==> #[trigger] stmts_no_use(else_if_branches@[j].1@),
                    *stmt == (Stmt::If {
                        cond: *cond,
                        then_branch: *then_branch,
                        else_if_branches: *else_if_branches,
                        else_branch: *else_branch,
                    }),
                decreases else_if_branches.len() - i,
            {
                match self.eval_const(&else_if_branches[i].0) {
                    Some(ConstVal::Bool(true)) => {
                        proof {
                            let bs = stmt->If_else_if_branches;
                            assert(decreases_to!(stmt => bs));
                            assert(decreases_to!(bs => bs@));
                            assert(decreases_to!(bs@ => bs@[i as int]));
                            assert(decreases_to!(bs@[i as int] => bs@[i as int].1));
                        }
                        return self.gen_block(stmt, &else_if_branches[i].1);
                    },
                    Some(ConstVal::Bool(false)) => {},
                    _ => {
                        resolved_statically = false;
                        break;
                    },
                }
                i = i + 1;
            }
            if resolved_statically {
                proof {
                    lemma_extends_refl(*self);
                }
                if let Some(else_stmts) = else_branch {
                    proof {
                        let e = stmt->If_else_branch;
                        assert(decreases_to!(stmt => e));
                        assert(decreases_to!(e => e->0));
                    }
                    return self.gen_block(stmt, else_stmts);
                }
                return Ok(());
            }
        }
        let ghost g0 = *self;
        proof {
            if frag {
                assert(whole_ei is Some);
                assert(n + 2 + tk + ek <= n + total);
            }
        }
        let true_end = self.fresh_label()?;
        let mut next_target = self.fresh_label()?;
        let ghost ga = *self;
        proof {
            if frag {
                assert(ga.same_env(*old(self)));
            }
        }
        let cond_val = self.gen_expr(cond, None)?;
        let ghost gb = *self;
        self.push_code(Instruction::JumpIfFalse { cond: cond_val.duplicate(), target: next_target.clone() });
        let ghost gc = *self;
        proof {
            if frag {
                assert(gc.exit_labels() =~= ex);
                assert(gc.same_env(*old(self)));
                lemma_frag_block_env(gc, *old(self), then_branch@, n + 2, ex);
            }
        }
        self.gen_block(stmt, then_branch)?;
        let ghost gd = *self;
        self.push_code(Instruction::Jump(true_end.clone()));
        let ghost ge = *self;
        let ghost first_next = next_target@;
        proof {
            if frag {
                assert(ge.exit_labels() =~= ex);
                assert(ge.same_env(*old(self)));
                lemma_frag_elseifs_env(
                    ge,
                    *old(self),
                    else_if_branches@,
                    label_name(n + 2),
                    label_name(n + 1),
                    n + 2 + tk,
                    ex,
                );
            }
        }
        next_target = self.gen_else_ifs(stmt, next_target, &true_end)?;
        let ghost gf = *self;
        let ghost last_next = next_target@;
        let ghost mut gh = *self;
        if let Some(else_stmts) = else_branch {
            self.push_code(Instruction::Label(next_target));
            proof {
                gh = *self;
                if frag {
                    assert(gh.exit_labels() =~= ex);
                    assert(gh.same_env(*old(self)));
                    lemma_frag_block_env(gh, *old(self), else_stmts@, gh.labels_issued(), ex);
                    assert(frag_block(*old(self), else_stmts@, n + 2 + tk + ek, ex) is Some);
                    assert(2 + tk + ek + (frag_block(*old(self), else_stmts@, n + 2 + tk + ek, ex)->0).1 == total);
                }
                let e = stmt->If_else_branch;
                assert(decreases_to!(stmt => e));
                assert(decreases_to!(e => e->0));
            }
            self.gen_block(stmt, else_stmts)?;
        } else if !str_eq(next_target.as_str(), true_end.as_str()) {
            self.push_code(Instruction::Label(next_target));
        }
        let ghost gg = *self;
        self.push_code(Instruction::Label(true_end.clone()));
        proof {
            if frag {
                lemma_label_names_distinct(n + 1, n + 2 + tk + ek);
                assert(views(ga.code@) == views(old(self).code@));
                assert(views(gc.code@) =~= views(old(self).code@) + seq![
                    InstructionV::JumpIfFalse { cond: cond_val.view(), target: label_name(n + 2) },
                ]);
                lemma_views_extend(gc.code@, gd.code@);
                assert(views(ge.code@) =~= views(gd.code@).push(InstructionV::Jump(true_end@)));
                let tc = (frag_block(*old(self), then_branch@, n + 2, ex)->0).0;
                let ec = (whole_ei->0).0;
                let nx = (whole_ei->0).2;
                assert(nx == last_next);
                let v = cond_val.view();
                assert(simple_value(*old(self), *cond) == Some(v));
                let lc: Seq<InstructionV> = if else_branch is Some {
                    seq![InstructionV::Label(nx)] + (frag_block(
                        *old(self),
                        else_branch->0@,
                        n + 2 + tk + ek,
                        ex,
                    )->0).0
                } else {
                    seq![InstructionV::Label(nx)]
                };
                if else_branch is Some {
                    assert(views(gh.code@) =~= views(gf.code@).push(InstructionV::Label(last_next)));
                    lemma_views_extend(gh.code@, gg.code@);
                    assert(views(gg.code@) =~= views(gf.code@) + lc);
                } else {
                    if else_if_branches@.len() > 0 {
                        assert(nx == label_name(n + 2 + tk + (frag_elseifs(
                            *old(self),
                            else_if_branches@.drop_last(),
                            label_name(n + 2),
                            label_name(n + 1),
                            n + 2 + tk,
                            ex,
                        )->0).1 + 1));
                        lemma_label_names_distinct(n + 1, n + 2 + tk + (frag_elseifs(
                            *old(self),
                            else_if_branches@.drop_last(),
                            label_name(n + 2),
                            label_name(n + 1),
                            n + 2 + tk,
                            ex,
                        )->0).1 + 1);
                    } else {
                        lemma_label_names_distinct(n + 1, n + 2);
                    }
                    assert(nx != label_name(n + 1));
                    assert(views(gg.code@) =~= views(gf.code@) + lc);
                }
                assert(views(self.code@) =~= views(gg.code@).push(InstructionV::Label(true_end@)));
                assert(views(self.code@) =~= views(old(self).code@) + (seq![
                    InstructionV::JumpIfFalse { cond: v, target: label_name(n + 2) },
                ] + tc + seq![InstructionV::Jump(label_name(n + 1))] + ec + lc + seq![
                    InstructionV::Label(label_name(n + 1)),
                ]));
            }
            if dynamic_if(*stmt) {
                let n = old(self).labels_issued();
                assert(g0 == *old(self));
                assert(true_end@ == label_name(n + 1));
                assert(first_next == label_name(n + 2));
                lemma_label_names_distinct(n + 1, n + 2);
                let c = views(gb.code@).subrange(ga.code@.len() as int, gb.code@.len() as int);
                let t = views(gd.code@).subrange(gc.code@.len() as int, gd.code@.len() as int);
                let rest = views(self.code@).subrange(ge.code@.len() as int, self.code@.len() as int);
                let e = views(gg.code@).subrange(gf.code@.len() as int + 1, gg.code@.len() as int);
                lemma_views_extend(ga.code@, gb.code@);
                lemma_views_extend(gc.code@, gd.code@);
                lemma_views_extend(ge.code@, self.code@);
                assert(views(gc.code@) =~= views(gb.code@).push(
                    InstructionV::JumpIfFalse { cond: cond_val.view(), target: first_next },
                ));
                assert(views(ge.code@) =~= views(gd.code@).push(InstructionV::Jump(true_end@)));
                assert(views(self.code@) =~= views(gg.code@).push(InstructionV::Label(true_end@)));
                assert(views(self.code@) =~= views(old(self).code@) + c + seq![
                    InstructionV::JumpIfFalse { cond: cond_val.view(), target: label_name(n + 2) },
                ] + t + seq![InstructionV::Jump(label_name(n + 1))] + rest);
                assert(rest.last() == InstructionV::Label(label_name(n + 1)));
                if gd.code@.len() == gc.code@.len() {
                    assert(t =~= Seq::<InstructionV>::empty());
                }
                if else_if_branches@.len() == 0 {
                    assert(gf.code@ == ge.code@);
                    assert(last_next == label_name(n + 2));
                    if else_branch is Some {
                        assert(views(gh.code@) =~= views(gf.code@).push(InstructionV::Label(last_next)));
                        lemma_views_extend(gh.code@, gg.code@);
                    } else {
                        assert(views(gg.code@) =~= views(gf.code@).push(InstructionV::Label(last_next)));
                        assert(e =~= Seq::<InstructionV>::empty());
                    }
                    assert(rest =~= seq![InstructionV::Label(label_name(n + 2))] + e + seq![
                        InstructionV::Label(label_name(n + 1)),
                    ]);
                }
                assert(if_code(c, cond_val.view(), t, rest, e) == (c, cond_val.view(), t, rest, e));
            }
        }
        Ok(())
    }

    /// Lowers the `else if` branches of the `if` `stmt`, whose end is `end`, the first
    /// entered at the label `next0`: for each, its label, its condition's jump past it to
    /// a fresh label, its body and a jump to the end. Gives the label that follows the last.
    #[verifier::spinoff_prover]
    #[verifier::rlimit(50)]
    fn gen_else_ifs(&mut self, stmt: &Stmt, next0: String, end: &String) -> (res: Result<String, LowerError>)
        requires
            old(self).wf(),
            stmt_no_use(*stmt),
            stmt is If,
        ensures
            final(self).wf(),
            res is Ok ==> final(self).extends(&*old(self)),
            stmt->If_else_if_branches@.len() == 0 ==> (res matches Ok(t) && t@ == next0@ && *final(self) == *old(self)),
            frag_elseifs(
                *old(self),
                stmt->If_else_if_branches@,
                next0@,
                end@,
                old(self).labels_issued(),
                old(self).exit_labels(),
            ) matches Some((c, k, nx)) ==> ((old(self).labels_issued() + k <= usize::MAX ==> res is Ok) && (
            res matches Ok(t) ==> t@ == nx && views(final(self).instrs()) == views(old(self).instrs()) + c
                && final(self).labels_issued() == old(self).labels_issued() + k && final(self).frame_same(*old(self)))),
        decreases stmt, 1int,
    {
        let else_if_branches = match stmt {
            Stmt::If { else_if_branches, .. } => else_if_branches,
            _ => {
                proof {
                    assert(false);
                }
                return Ok(next0);
            },
        };
        proof {
            lemma_extends_refl(*self);
            lemma_branches_no_use(else_if_branches@);
        }
        let ghost n0 = old(self).labels_issued();
        let ghost ex = old(self).exit_labels();
        let ghost whole = frag_elseifs(*old(self), else_if_branches@, next0@, end@, n0, ex);
        let ghost ek = (whole->0).1;
        let ghost frag = whole is Some;
        let mut next_target = next0;
        proof {
            if frag {
                assert(else_if_branches@.take(0) =~= Seq::<(Expr, Vec<Stmt>)>::empty());
                assert(views(self.code@) =~= views(old(self).code@) + Seq::<InstructionV>::empty());
            }
        }
        let mut i: usize = 0;
        while i < else_if_branches.len()
            invariant
                0 <= i <= else_if_branches@.len(),
                self.wf(),
                self.extends(&*old(self)),
                i == 0 ==> *self == *old(self) && next_target@ == next0@,
                forall|j: int| 0 <= j < else_if_branches@.len() ==> #[trigger] stmts_no_use(else_if_branches@[j].1@),
                stmt->If_else_if_branches == *else_if_branches,
                stmt is If,
                n0 == old(self).labels_issued(),
                ex == old(self).exit_labels(),
                whole == frag_elseifs(*old(self), else_if_branches@, next0@, end@, n0, ex),
                frag == whole is Some,
                ek == (whole->0).1,
                frag ==> (frag_elseifs(*old(self), else_if_branches@.take(i as int), next0@, end@, n0, ex) matches Some(
                    (c, k, nx),
                ) && views(self.code@) == views(old(self).code@) + c && self.labels_issued() == n0 + k
                    && next_target@ == nx && self.frame_same(*old(self))),
            decreases else_if_branches.len() - i,
        {
            let ghost s0 = *self;
            let ghost nx0 = next_target@;
            proof {
                if frag {
                    lemma_frag_elseifs_prefix(*old(self), else_if_branches@, i + 1, next0@, end@, n0, ex);
                    assert(else_if_branches@.take(i + 1).drop_last() =~= else_if_branches@.take(i as int));
                    assert(else_if_branches@.take(i + 1).last() == else_if_branches@[i as int]);
                    let pre = frag_elseifs(*old(self), else_if_branches@.take(i as int), next0@, end@, n0, ex)->0;
                    let post = frag_elseifs(*old(self), else_if_branches@.take(i + 1), next0@, end@, n0, ex);
                    assert(post is Some);
                    assert(simple_value(*old(self), else_if_branches@[i as int].0) is Some);
                    assert(frag_block(*old(self), else_if_branches@[i as int].1@, n0 + pre.1 + 1, ex) is Some);
                    assert((post->0).1 == pre.1 + 1 + (frag_block(
                        *old(self),
                        else_if_branches@[i as int].1@,
                        n0 + pre.1 + 1,
                        ex,
                    )->0).1);
                    assert((post->0).1 <= ek);
                }
            }
            self.push_code(Instruction::Label(next_target));
            next_target = self.fresh_label()?;
            let ghost s1 = *self;
            proof {
                if frag {
                    assert(s1.same_env(*old(self)));
                }
            }
            let ei_cond_val = self.gen_expr(&else_if_branches[i].0, None)?;
            let ghost vv = ei_cond_val.view();
            self.push_code(Instruction::JumpIfFalse { cond: ei_cond_val, target: next_target.clone() });
            let ghost s3 = *self;
            proof {
                let bs = stmt->If_else_if_branches;
                assert(decreases_to!(stmt => bs));
                assert(decreases_to!(bs => bs@));
                assert(decreases_to!(bs@ => bs@[i as int]));
                assert(decreases_to!(bs@[i as int] => bs@[i as int].1));
                if frag {
                    assert(s3.exit_labels() =~= ex);
                    assert(s3.same_env(*old(self)));
                    lemma_frag_block_env(s3, *old(self), else_if_branches@[i as int].1@, s3.labels_issued(), ex);
                }
            }
            self.gen_block(stmt, &else_if_branches[i].1)?;
            let ghost s4 = *self;
            self.push_code(Instruction::Jump(end.clone()));
            proof {
                if frag {
                    lemma_views_extend(s3.code@, s4.code@);
                    let bc = views(s4.code@).subrange(s3.code@.len() as int, s4.code@.len() as int);
                    assert(views(self.code@) =~= views(s0.code@) + seq![
                        InstructionV::Label(nx0),
                        InstructionV::JumpIfFalse { cond: vv, target: next_target@ },
                    ] + bc + seq![InstructionV::Jump(end@)]);
                    assert(else_if_branches@.take(i + 1).drop_last() =~= else_if_branches@.take(i as int));
                    let pre = frag_elseifs(*old(self), else_if_branches@.take(i as int), next0@, end@, n0, ex)->0;
                    let fb = frag_block(*old(self), else_if_branches@[i as int].1@, n0 + pre.1 + 1, ex)->0;
                    assert(s1.labels_issued() == n0 + pre.1 + 1);
                    assert(next_target@ == label_name(n0 + pre.1 + 1));
                    assert(Some(vv) == simple_value(*old(self), else_if_branches@[i as int].0));
                    assert(s3.labels_issued() == n0 + pre.1 + 1);
                    assert(views(s4.code@) == views(s3.code@) + fb.0);
                    lemma_subrange_after(views(s3.code@), fb.0);
                    assert(bc == fb.0);
                    assert(self.labels_issued() == n0 + pre.1 + 1 + fb.1);
                    assert(self.frame_same(*old(self)));
                    assert(views(self.code@) =~= views(old(self).code@) + (pre.0 + seq![
                        InstructionV::Label(pre.2),
                        InstructionV::JumpIfFalse { cond: vv, target: label_name(n0 + pre.1 + 1) },
                    ] + fb.0 + seq![InstructionV::Jump(end@)]));
                }
                lemma_extends_trans(*self, s0, *old(self));
            }
            i = i + 1;
        }
        proof {
            if frag {
                assert(else_if_branches@.take(else_if_branches@.len() as int) =~= else_if_branches@);
            }
        }
        Ok(next_target)
    }

    /// Lowers `for x in target { body }` over the fields `fields` (offset and type, in
    /// order) of the struct `struct_name` that `target_value` holds: for each field its
    /// value is loaded into the loop variable and the body lowered. With `aliased`, the
    /// variable of each pass is a name of its own (the field's index after `#`), which
    /// the loop variable's name stands for in the body.
    fn gen_for_in_fields(
        &mut self,
        stmt: &Stmt,
        struct_name: &String,
        target_value: &Value,
        fields: &Vec<(i64, Type)>,
        aliased: bool,
    ) -> (res: Result<(), LowerError>)
        requires
            old(self).wf(),
            stmt_no_use(*stmt),
            stmt is ForIn,
        ensures
            final(self).wf(),
            res is Ok ==> final(self).extends(&*old(self)),
            fields@.len() == 0 ==> res is Ok && final(self).instrs() == old(self).instrs(),
            res is Ok ==> final(self).instrs().len() >= old(self).instrs().len() + 4 * fields@.len(),
        decreases stmt, 1int,
    {
        let (field_ident, body) = match stmt {
            Stmt::ForIn { field_ident, body, .. } => (field_ident, body),
            _ => {
                proof {
                    assert(false);
                }
                return Ok(());
            },
        };
        proof {
            assert(decreases_to!(stmt => stmt->ForIn_body));
            lemma_extends_refl(*self);
        }
        let field_var = concat3(self.current_function.as_str(), "::", field_ident.value.as_str());
        let mut i: usize = 0;
        while i < fields.len()
            invariant
                0 <= i <= fields@.len(),
                self.wf(),
                self.extends(&*old(self)),
                stmts_no_use(body@),
                decreases_to!(stmt => body),
                i == 0 ==> self.instrs() == old(self).instrs(),
                self.code@.len() >= old(self).code@.len() + 4 * i,
            decreases fields.len() - i,
        {
            let offset = fields[i].0;
            let field_type = self.resolve_type(&fields[i].1)?;
            let base_addr = self.emit_ref(Type::Struct(struct_name.clone()), target_value.duplicate())?;
            let field_addr = self.emit_offset(clone_type(&field_type), Value::Temp(base_addr), Value::Const(offset))?;
            let field_value = self.emit_load(clone_type(&field_type), Value::Temp(field_addr))?;
            if aliased {
                let n = usize_to_string(i);
                let a = concat3(self.current_function.as_str(), "::", field_ident.value.as_str());
                let iteration_var = concat3(a.as_str(), "#", n.as_str());
                let shadow_var = concat3(self.current_function.as_str(), "::", field_ident.value.as_str());
                self.var_types.push_scope();
                let mut alias_scope: StrMap<String> = StrMap::new();
                alias_scope.insert(field_ident.value.clone(), iteration_var.clone());
                self.var_aliases.push(alias_scope);
                self.var_types.insert(iteration_var.clone(), clone_type(&field_type));
                self.var_types.insert(shadow_var, clone_type(&field_type));
                self.var_types.insert(field_ident.value.clone(), field_type);
                self.push_code(Instruction::Assign { dst: iteration_var, src: Value::Temp(field_value) });
                self.gen_block(stmt, body)?;
                self.var_aliases.pop();
                self.var_types.pop_scope();
            } else {
                self.var_types.insert(field_var.clone(), field_type);
                self.push_code(Instruction::Assign { dst: field_var.clone(), src: Value::Temp(field_value) });
                self.gen_block(stmt, body)?;
            }
            i = i + 1;
        }
        Ok(())
    }

    /// Lowers `for x in target { body }`: the body once per field of the struct (or of
    /// the struct a generic instance or a pack is laid out as) that `target` holds, in
    /// order of the fields' offsets; a pack's count is left out.
    fn gen_for_in(&mut self, stmt: &Stmt) -> (res: Result<(), LowerError>)
        requires
            old(self).wf(),
            stmt_no_use(*stmt),
            stmt is ForIn,
        ensures
            final(self).wf(),
            res is Ok ==> final(self).extends(&*old(self)),
            stmt matches Stmt::ForIn { target_expr, .. } ==> (target_expr.kind matches ExprKind::Literal(l) && (l is Int
                || l is Bool || l is Char || l is String) ==> res is Err),
        decreases stmt, 2int,
    {
        let target_expr = match stmt {
            Stmt::ForIn { target_expr, .. } => target_expr,
            _ => {
                proof {
                    assert(false);
                }
                return Ok(());
            },
        };
        let target_type = match self.expr_type(target_expr)? {
            Some(t) => t,
            None => {
                return Err(lower_error("ICE: Cannot determine type of for-in target"));
            },
        };
        let resolved_type = self.resolve_type(&target_type)?;
        let target_value = self.gen_expr(target_expr, None)?;
        match resolved_type {
            Type::Struct(struct_name) => {
                let fields = self.layout_fields(struct_name.as_str(), false)?;
                self.gen_for_in_fields(stmt, &struct_name, &target_value, &fields, true)
            },
            Type::GenericInstance { name, args } => {
                let concrete_type = self.resolve_type(&Type::GenericInstance { name, args })?;
                match concrete_type {
                    Type::Struct(struct_name) => {
                        let fields = self.layout_fields(struct_name.as_str(), false)?;
                        self.gen_for_in_fields(stmt, &struct_name, &target_value, &fields, false)
                    },
                    other => {
                        let t = type_to_string(&other);
                        Err(lower_error3("ICE: Generic for-in target resolved to non-struct type ", t.as_str(), ""))
                    },
                }
            },
            Type::VariadicPack { .. } => {
                let struct_type = self.resolve_type(&target_type)?;
                match struct_type {
                    Type::Struct(struct_name) => {
                        let fields = self.layout_fields(struct_name.as_str(), true)?;
                        self.gen_for_in_fields(stmt, &struct_name, &target_value, &fields, false)
                    },
                    other => {
                        let t = type_to_string(&other);
                        Err(lower_error3("ICE: VariadicPack did not resolve to a struct: ", t.as_str(), ""))
                    },
                }
            },
            other => {
                let t = type_to_string(&other);
                Err(lower_error3("ICE: Cannot use type ", t.as_str(), " as a for-in target"))
            },
        }
    }

    /// The offsets and types of the fields of the struct `struct_name`, in order of their
    /// offsets; with `skip_count`, without a pack's count field.
    fn layout_fields(&self, struct_name: &str, skip_count: bool) -> (res: Result<Vec<(i64, Type)>, LowerError>)
        requires
            self.wf(),
        ensures
            res matches Ok(v) ==> sorted_by_offset(v@),
            self.struct_defs.has(struct_name@) ==> res is Ok,
    {
        let mut fields: Vec<(i64, Type)> = Vec::new();
        match self.get_struct_layout(struct_name) {
            Some(layout) => {
                let count = offset_count(&layout.field_offsets);
                let mut k: usize = 0;
                while k < count
                    invariant
                        0 <= k <= count,
                        count == offset_entries(layout.field_offsets).len(),
                    decreases count - k,
                {
                    let (n, e) = offset_at(&layout.field_offsets, k);
                    if !skip_count || !str_eq(n.as_str(), variadic::length_field()) {
                        fields.push((e.0, clone_type(&e.1)));
                    }
                    k = k + 1;
                }
            },
            None => {
                let message = if skip_count {
                    lower_error3("ICE: Variadic pack layout not found for '", struct_name, "'")
                } else {
                    lower_error3("ICE: Struct layout not found for '", struct_name, "'")
                };
                return Err(message);
            },
        }
        Ok(sort_by_offset(fields))
    }

    /// Lowers a function. A generic or variadic one is kept, to be instantiated for
    /// each set of types it is called with; any other gets its label, a parameter for
    /// each parameter, its body, and a final `return` if its body does not end with one.
    #[verifier::rlimit(80)]
    fn gen_function(&mut self, stmt: &Stmt) -> (res: Result<(), LowerError>)
        requires
            old(self).wf(),
            stmt_no_use(*stmt),
            stmt is Function,
        ensures
            final(self).wf(),
            res is Ok ==> final(self).extends(&*old(self)),
            stmt matches Stmt::Function { name, generic_params, params, .. } ==> (res is Ok ==> function_lowered(
                name.value@,
                generic_params@.len() > 0,
                params@,
                old(self).instrs(),
                final(self).instrs(),
            )),
            stmt matches Stmt::Function { generic_params, params, .. } ==> (generic_params@.len() > 0
                || has_variadic_param(params@) ==> res is Ok),
            stmt matches Stmt::Function { name, generic_params, params, body, .. } ==> (generic_params@.len() == 0
                && !has_variadic_param(params@) ==> (res is Ok ==> function_code(
                name.value@,
                params@,
                body@,
                views(old(self).instrs()),
                views(final(self).instrs()),
            ))),
            simple_fn_decl(*stmt) matches Some(n) ==> ((res is Ok <==> old(self).functions_issued() < usize::MAX) && (
            res is Ok ==> views(final(self).instrs()) == views(old(self).instrs()) + seq![
                InstructionV::FunctionLabel(n),
                InstructionV::Return { value: ValueV::Void },
            ] && final(self).nothing_deferred() == old(self).nothing_deferred() && final(self).functions_issued()
                == old(self).functions_issued() + 1)),
            stmt matches Stmt::Function { name, generic_params, params, body, rttype, .. } ==> (generic_params@.len()
                == 0 && plain_params(params@) && (rttype matches Some(t) ==> plain_type(*t)) ==> forall|g: IRGen|
                #[trigger] g.entered_function(*old(self), name.value@, params@) ==> (frag_block(
                    g,
                    body@,
                    old(self).labels_issued(),
                    old(self).exit_labels(),
                ) matches Some((c, k)) ==> ((old(self).labels_issued() + k <= usize::MAX && old(
                    self,
                ).functions_issued() < usize::MAX ==> res is Ok) && (res is Ok ==> views(final(self).instrs())
                    == views(old(self).instrs()) + seq![InstructionV::FunctionLabel(name.value@)] + param_code(
                    name.value@,
                    params@,
                ) + c + (if body@.len() > 0 && body@.last() is Return {
                    Seq::<InstructionV>::empty()
                } else {
                    seq![InstructionV::Return { value: ValueV::Void }]
                }) && final(self).labels_issued() == old(self).labels_issued() + k && final(self).type_of_name(
                    name.value@,
                ) == Some(recorded_return(*rttype)) && final(self).nothing_deferred() == old(
                    self,
                ).nothing_deferred())))),
            stmt matches Stmt::Function { name, generic_params, params, body, rttype, .. } ==> (generic_params@.len()
                == 0 && plain_params(params@) && (rttype matches Some(t) ==> plain_type(*t)) && closed_block(body@)
                ==> (frag_block(*old(self), body@, old(self).labels_issued(), old(self).exit_labels()) matches Some(
                (c, k),
            ) ==> ((old(self).labels_issued() + k <= usize::MAX && old(self).functions_issued() < usize::MAX
                ==> res is Ok) && (res is Ok ==> views(final(self).instrs()) == views(old(self).instrs()) + seq![
                InstructionV::FunctionLabel(name.value@),
            ] + param_code(name.value@, params@) + c + (if body@.len() > 0 && body@.last() is Return {
                Seq::<InstructionV>::empty()
            } else {
                seq![InstructionV::Return { value: ValueV::Void }]
            }) && final(self).labels_issued() == old(self).labels_issued() + k && final(self).functions_issued()
                == old(self).functions_issued() + 1 && final(self).exit_labels() == old(self).exit_labels()
                && final(self).nothing_deferred() == old(self).nothing_deferred())))),
            simple_fn_decl(*stmt) matches Some(n) ==> (res is Ok ==> final(self).type_of_name(n) == Some(TypeV::Void)),
        decreases stmt, 1int,
    {
        let (name, generic_params, params, body, rttype) = match stmt {
            Stmt::Function { name, generic_params, params, body, rttype, .. } => (
                name,
                generic_params,
                params,
                body,
                rttype,
            ),
            _ => {
                proof {
                    assert(false);
                }
                return Ok(());
            },
        };
        proof {
            assert(decreases_to!(stmt => stmt->Function_body));
            lemma_extends_refl(*self);
        }
        let mut has_variadic = false;
        let mut k: usize = 0;
        while k < params.len()
            invariant
                0 <= k <= params@.len(),
                has_variadic == exists|m: int| 0 <= m < k && #[trigger] params@[m].is_variadic,
            decreases params.len() - k,
        {
            if params[k].is_variadic {
                has_variadic = true;
            }
            k = k + 1;
        }
        if generic_params.len() > 0 || has_variadic {
            self.fn_blueprints.insert(name.value.clone(), stmt.duplicate());
            return Ok(());
        }
        let ghost plain = plain_params(params@) && (rttype matches Some(t) ==> plain_type(*t));
        let resolved_rttype = match rttype {
            Some(t) => self.resolve_type(t)?,
            None => Type::Void,
        };
        proof {
            if plain {
                assert(*self == *old(self));
                assert(resolved_rttype@ == recorded_return(*rttype));
            }
        }
        self.var_types.insert(name.value.clone(), resolved_rttype);
        let ghost vt_outer = self.var_types;
        proof {
            reveal_strlit("::");
            if plain {
                assert forall|n: Seq<char>| #[trigger] vt_outer.lookup(name.value@ + "::"@ + n) == old(
                    self,
                ).var_types.lookup(name.value@ + "::"@ + n) by {
                    assert((name.value@ + "::"@ + n).len() > name.value@.len());
                    assert(name.value@ + "::"@ + n != name.value@);
                }
            }
        }
        if self.functions.issued() == usize::MAX {
            return Err(lower_error("Internal error: too many functions."));
        }
        let start = self.functions.next(name.value.clone());
        let mut old_func = start.clone();
        std::mem::swap(&mut self.current_function, &mut old_func);
        self.var_types.push_scope();
        let ghost mid = *self;
        proof {
            if plain {
                assert(mid.functions_issued() == old(self).functions_issued() + 1);
            }
            lemma_extends_refl(mid);
            assert forall|k: Seq<char>| #[trigger] mid.var_types.lookup(k) == vt_outer.lookup(k) by {
                let sc = mid.var_types.scopes@;
                assert(sc.drop_last() == vt_outer.scopes@);
                assert(!sc.last().has(k));
            }
        }
        let ghost at = self.code@.len() as int;
        let ghost before = self.code@;
        self.push_code(Instruction::FunctionLabel(start.clone()));
        let ghost entry = *self;
        let mut i: usize = 0;
        while i < params.len()
            invariant
                0 <= i <= params@.len(),
                params@.len() == 0 ==> *self == entry,
                stmt->Function_params@ == params@,
                plain ==> plain_params(params@),
                plain ==> self.analyser_constants == mid.analyser_constants && self.var_aliases@ == mid.var_aliases@
                    && self.current_function == mid.current_function && self.labels == mid.labels
                    && self.loop_exits@ == mid.loop_exits@ && self.deferred_instantiations@
                    == mid.deferred_instantiations@ && self.functions == mid.functions,
                plain ==> self.var_types.scopes@.len() == mid.var_types.scopes@.len()
                    && self.var_types.scopes@.drop_last() == mid.var_types.scopes@.drop_last(),
                plain ==> forall|n: Seq<char>| #[trigger] self.var_types.lookup(name.value@ + "::"@ + n) is Some <==> (
                vt_outer.lookup(name.value@ + "::"@ + n) is Some || typed_param(params@.take(i as int), n)),
                self.wf(),
                self.extends(&mid),
                mid.code@ == old(self).code@,
                mid.const_budget <= old(self).const_budget,
                start@ == name.value@,
                stmt matches Stmt::Function { generic_params: g, params: ps, .. } && g@.len() == 0
                    && !has_variadic_param(ps@),
                at == old(self).code@.len(),
                before == old(self).code@,
                self.code@.len() == at + 1 + i,
                self.code@.subrange(0, at) == before,
                self.code@[at].view() == InstructionV::FunctionLabel(name.value@),
                simple_fn_decl(*stmt) is Some ==> params@.len() == 0,
                simple_fn_decl(*stmt) is Some ==> self.deferred_instantiations@ == old(self).deferred_instantiations@,
                simple_fn_decl(*stmt) is Some ==> self.var_types == mid.var_types,
                forall|j: int| 0 <= j < i ==> #[trigger] self.code@[at + 1 + j].view() == (InstructionV::Param {
                    p: name.value@ + "::"@ + params@[j].name.value@,
                }),
            decreases params.len() - i,
        {
            let unique_param_name = concat3(start.as_str(), "::", params[i].name.value.as_str());
            let ghost pre = *self;
            if let Some(param_ty) = &params[i].ptype {
                let resolved_param_ty = self.resolve_type(param_ty)?;
                self.var_types.insert(unique_param_name.clone(), resolved_param_ty);
            }
            proof {
                if plain {
                    lemma_param_lookup(
                        pre.var_types,
                        self.var_types,
                        vt_outer,
                        name.value@,
                        params@,
                        i as int,
                        unique_param_name@,
                    );
                }
            }
            self.push_code(Instruction::Param { p: unique_param_name });
            i = i + 1;
        }
        let ghost after_params = *self;
        proof {
            if plain {
                assert(params@.take(params@.len() as int) =~= params@);
                assert(after_params.entered_function(*old(self), name.value@, params@));
            }
        }
        match self.gen_block(stmt, body) {
            Ok(()) => {},
            Err(e) => {
                proof {
                    if plain {
                        assert forall|g: IRGen| #[trigger]
                            g.entered_function(*old(self), name.value@, params@) implies !(frag_block(
                            g,
                            body@,
                            old(self).labels_issued(),
                            old(self).exit_labels(),
                        ) matches Some((c, k)) && old(self).labels_issued() + k <= usize::MAX) by {
                            lemma_entered_resolves(g, after_params, *old(self), name.value@, params@);
                            lemma_frag_block_env(
                                g,
                                after_params,
                                body@,
                                old(self).labels_issued(),
                                old(self).exit_labels(),
                            );
                        }
                    }
                }
                proof {
                    if plain && closed_block(body@) {
                        lemma_frag_block_closed(
                            *old(self),
                            after_params,
                            body@,
                            old(self).labels_issued(),
                            old(self).exit_labels(),
                        );
                        assert(after_params.entered_function(*old(self), name.value@, params@));
                    }
                }
                return Err(e);
            },
        }
        let ghost after_body = *self;
        let ghost fragged = plain && frag_block(
            after_params,
            body@,
            after_params.labels_issued(),
            after_params.exit_labels(),
        ) is Some;
        proof {
            if fragged {
                assert(after_body.var_types == after_params.var_types);
            }
            if simple_fn_decl(*stmt) is Some {
                assert(frag_block(after_params, body@, after_params.labels_issued(), after_params.exit_labels()) is Some);
                assert(after_body.deferred_instantiations@ == after_params.deferred_instantiations@);
                assert(after_body.var_types == after_params.var_types);
            }
        }
        let ends_with_return = body.len() > 0 && matches!(body[body.len() - 1], Stmt::Return { .. });
        if !ends_with_return {
            self.push_code(Instruction::Return { value: Value::Void });
        }
        proof {
            let b = views(after_body.code@).subrange(after_params.code@.len() as int, after_body.code@.len() as int);
            let head = views(before) + seq![InstructionV::FunctionLabel(name.value@)] + param_code(
                name.value@,
                params@,
            );
            assert(views(after_params.code@) =~= head) by {
                assert forall|m: int| 0 <= m < after_params.code@.len() implies views(after_params.code@)[m]
                    == head[m] by {
                    if m < at {
                        assert(after_params.code@.subrange(0, at)[m] == before[m]);
                    } else if m > at {
                        let j = m - at - 1;
                        assert(after_params.code@[at + 1 + j].view() == (InstructionV::Param {
                            p: name.value@ + "::"@ + params@[j].name.value@,
                        }));
                    }
                }
            }
            lemma_views_extend(after_params.code@, after_body.code@);
            if body@.len() == 0 {
                assert(b =~= Seq::<InstructionV>::empty());
            }
            if ends_with_return {
                assert(self.code@ == after_body.code@);
                assert(views(self.code@) =~= head + b + Seq::<InstructionV>::empty());
            } else {
                assert(views(self.code@) =~= views(after_body.code@).push(InstructionV::Return { value: ValueV::Void }));
                assert(views(self.code@) =~= head + b + seq![InstructionV::Return { value: ValueV::Void }]);
            }
            assert(fn_body_code(b) == b);
        }
        proof {
            let n = params@.len() as int;
            let code = self.code@;
            assert(self.extends(&after_params));
            assert(code[at] == after_params.code@[at]);
            assert forall|j: int| 0 <= j < n implies #[trigger] code[at + 1 + j].view() == (InstructionV::Param {
                p: name.value@ + "::"@ + params@[j].name.value@,
            }) by {
                assert(code[at + 1 + j] == after_params.code@[at + 1 + j]);
            }
            assert(code.subrange(0, at) =~= before) by {
                assert forall|m: int| 0 <= m < at implies code[m] == before[m] by {
                    assert(code[m] == after_params.code@[m]);
                    assert(after_params.code@.subrange(0, at)[m] == before[m]);
                }
            }
            if code.len() == at + 1 + n {
                let last = code.len() - 1;
                assert(code[last] == after_params.code@[last]);
                if n > 0 {
                    assert(code[at + 1 + (n - 1)].view() is Param);
                }
            }
        }
        proof {
            lemma_extends_trans(*self, after_params, mid);
            lemma_extends_back(*self, mid, *old(self));
        }
        let ghost vt_inner = self.var_types;
        self.var_types.pop_scope();
        proof {
            if simple_fn_decl(*stmt) is Some || fragged {
                assert(vt_inner.scopes@.len() == mid.var_types.scopes@.len());
                assert(vt_inner.scopes@.drop_last() == vt_outer.scopes@);
                assert(vt_inner.scopes@.len() >= 2);
                assert(vt_inner.scopes@[vt_inner.scopes@.len() - 2] == vt_outer.scopes@.last());
                assert(vt_outer.scopes@.last().has(name.value@));
                assert(crate::ir::tac::type_at(self.var_types.scopes@.last(), name.value@) == Some(
                    resolved_rttype@,
                ));
            }
        }
        self.current_function = old_func;
        proof {
            if plain {
                assert forall|g: IRGen| #[trigger] g.entered_function(*old(self), name.value@, params@) implies (frag_block(
                    g,
                    body@,
                    old(self).labels_issued(),
                    old(self).exit_labels(),
                ) matches Some((c, k)) ==> views(self.instrs()) == views(old(self).instrs()) + seq![
                    InstructionV::FunctionLabel(name.value@),
                ] + param_code(name.value@, params@) + c + (if body@.len() > 0 && body@.last() is Return {
                    Seq::<InstructionV>::empty()
                } else {
                    seq![InstructionV::Return { value: ValueV::Void }]
                }) && self.labels_issued() == old(self).labels_issued() + k && self.type_of_name(name.value@) == Some(
                    recorded_return(*rttype),
                ) && self.nothing_deferred() == old(self).nothing_deferred()) by {
                    lemma_entered_resolves(g, after_params, *old(self), name.value@, params@);
                    lemma_frag_block_env(g, after_params, body@, old(self).labels_issued(), old(self).exit_labels());
                    if let Some((c, k)) = frag_block(g, body@, old(self).labels_issued(), old(self).exit_labels()) {
                        let hd = views(old(self).code@) + seq![InstructionV::FunctionLabel(name.value@)] + param_code(
                            name.value@,
                            params@,
                        );
                        assert(views(after_params.code@) == hd);
                        if ends_with_return {
                            assert(views(self.code@) =~= hd + c + Seq::<InstructionV>::empty());
                        } else {
                            assert(views(self.code@) =~= hd + c + seq![InstructionV::Return { value: ValueV::Void }]);
                        }
                    }
                }
            }
        }
        proof {
            if plain && closed_block(body@) {
                lemma_frag_block_closed(*old(self), after_params, body@, old(self).labels_issued(), old(self).exit_labels());
                assert(after_params.entered_function(*old(self), name.value@, params@));
                assert(after_params.labels_issued() == old(self).labels_issued());
                assert(after_params.exit_labels() == old(self).exit_labels());
                if let Some((c, k)) = frag_block(
                    *old(self),
                    body@,
                    old(self).labels_issued(),
                    old(self).exit_labels(),
                ) {
                    assert(frag_block(after_params, body@, old(self).labels_issued(), old(self).exit_labels()) == Some(
                        (c, k),
                    ));
                    assert(self.functions_issued() == old(self).functions_issued() + 1);
                    assert(self.exit_labels() == old(self).exit_labels());
                }
            }
        }
        Ok(())
    }

    /// Lowers an assignment through a place: `*p = e` stores through `p`; `s.f = e`
    /// stores at the field's address; `a[i] = e` stores at the element's address;
    /// `x = e` assigns the variable.
    fn gen_deref_assignment(&mut self, target: &Expr, expr: &Expr) -> (res: Result<(), LowerError>)
        requires
            old(self).wf(),
        ensures
            final(self).wf(),
            res is Ok ==> final(self).extends(&*old(self)),
            (target.kind is Field || target.kind is Index || (target.kind matches ExprKind::Unary {
                op: UnaryOp::Deref,
                ..
            })) ==> (res is Ok ==> final(self).instrs().last().view() is Store),
            target.kind is Identifier ==> (res is Ok ==> final(self).instrs().last().view() is Assign),
    {
        let value_to_store = self.gen_expr(expr, None)?;
        match &target.kind {
            ExprKind::Unary { op: UnaryOp::Deref, expr: inner } => {
                let ptr_val = self.gen_expr(inner, None)?;
                self.push_code(Instruction::Store { ptr: ptr_val, source: value_to_store });
                Ok(())
            },
            ExprKind::Field { base, field } => {
                let base_addr = self.gen_lvalue_addr(base)?;
                let base_type = match self.expr_type(base)? {
                    Some(t) => t,
                    None => Type::Int,
                };
                let struct_name = self.struct_name_for(&base_type, "ICE: Field assignment on non-struct type. Found: ")?;
                let (offset, unres_field_ty) = match self.field_slot(struct_name.as_str(), field.as_str(), false) {
                    Some(Some(slot)) => slot,
                    Some(None) => {
                        let a = concat3("ICE: Referenced struct field '", field.as_str(), "' does not exist in '");
                        return Err(lower_error3(a.as_str(), struct_name.as_str(), "'."));
                    },
                    None => {
                        return Err(
                            lower_error3(
                                "ICE: Structural reference layout untracked for '",
                                struct_name.as_str(),
                                "'.",
                            ),
                        );
                    },
                };
                let field_type = self.resolve_type(&unres_field_ty)?;
                let field_addr_temp = self.emit_offset(field_type, base_addr, Value::Const(offset))?;
                self.push_code(Instruction::Store { ptr: Value::Temp(field_addr_temp), source: value_to_store });
                Ok(())
            },
            ExprKind::Index { base, index } => {
                let base_val = self.gen_expr(base, None)?;
                let index_val = self.gen_expr(index, None)?;
                let base_type = self.expr_type(base)?;
                let element_type = indexed_element_type(&base_type);
                let stride = self.element_size(&element_type)?;
                let offset_temp = self.emit_scaled(index_val, stride)?;
                let is_base_pointer = match &base.kind {
                    ExprKind::Identifier(name) => matches!(self.var_types.get(name.as_str()), Some(Type::Ptr(_))),
                    ExprKind::Unary { op: UnaryOp::Deref, .. } => true,
                    _ => false,
                };
                let target_addr_temp = self.next_temp_with_type(Type::Ptr(Box::new(clone_type(&element_type))))?;
                if is_base_pointer || matches!(base_type, Some(Type::Ptr(_))) {
                    self.push_code(
                        Instruction::Binary {
                            dst: target_addr_temp.clone(),
                            op: IrOp::Add,
                            lhs: base_val,
                            rhs: Value::Temp(offset_temp),
                        },
                    );
                } else {
                    let base_addr_temp = self.emit_ref(element_type, base_val)?;
                    self.push_code(
                        Instruction::Binary {
                            dst: target_addr_temp.clone(),
                            op: IrOp::Add,
                            lhs: Value::Temp(base_addr_temp),
                            rhs: Value::Temp(offset_temp),
                        },
                    );
                }
                self.push_code(Instruction::Store { ptr: Value::Temp(target_addr_temp), source: value_to_store });
                Ok(())
            },
            ExprKind::Identifier(name) => {
                let dst = self.resolve_var_name(name.as_str());
                self.push_code(Instruction::Assign { dst, src: value_to_store });
                Ok(())
            },
            _ => Err(lower_error("Invalid lvalue in DerefReassignment")),
        }
    }

    /// Appends a parameter named as `param`.
    pub fn gen_param(&mut self, param: &Parameter)
        requires
            old(self).wf(),
        ensures
            final(self).wf(),
            final(self).extends(&*old(self)),
            final(self).instrs().len() == old(self).instrs().len() + 1,
            final(self).instrs().last().view() == (InstructionV::Param { p: param.name.value@ }),
    {
        self.push_code(Instruction::Param { p: param.name.value.clone() });
    }
}


impl IRGen {
    /// Lowers a program: its declarations in order (any other statement at the top level
    /// is an error), then each instance of a generic or variadic function that was
    /// called, as its label, its parameters (the pack as one parameter of its struct),
    /// its body and a final `return` when the code does not end with one.
    #[verifier::rlimit(80)]
    pub fn gen_program(&mut self, program: &Program) -> (res: Result<(), LowerError>)
        requires
            old(self).wf(),
            stmts_no_use(program.statements@),
        ensures
            final(self).wf(),
            res is Ok ==> final(self).extends(&*old(self)),
            res is Ok ==> forall|j: int|
                0 <= j < program.statements@.len() ==> #[trigger] top_level_declaration(program.statements@[j]),
            program.statements@.len() == 0 && old(self).nothing_deferred() ==> res is Ok && final(self).instrs() == old(
                self).instrs(),
            program.statements@.len() == 1 ==> (program.statements@[0] matches Stmt::Function {
                name,
                generic_params,
                params,
                body,
                ..
            } ==> (generic_params@.len() == 0 && !has_variadic_param(params@) ==> (res is Ok ==> exists|
                fc: Seq<InstructionV>,
            |
                #![trigger function_code(name.value@, params@, body@, views(old(self).instrs()), fc)]
                function_code(name.value@, params@, body@, views(old(self).instrs()), fc) && fc.len() <= views(
                    final(self).instrs(),
                ).len() && fc == views(final(self).instrs()).subrange(0, fc.len() as int)))),
            program.statements@.len() == 1 ==> (simple_fn_decl(program.statements@[0]) matches Some(n) ==> (
            old(self).nothing_deferred() && old(self).functions_issued() < usize::MAX ==> res is Ok && views(
                final(self).instrs(),
            ) == views(old(self).instrs()) + seq![
                InstructionV::FunctionLabel(n),
                InstructionV::Return { value: ValueV::Void },
            ])),
            program.statements@.len() == 1 ==> (program.statements@[0] matches Stmt::Function {
                name,
                generic_params,
                params,
                body,
                rttype: None,
                ..
            } ==> (generic_params@.len() == 0 && params@.len() == 0 && old(self).nothing_deferred() ==> forall|
                g: IRGen,
            |
                #[trigger] g.entered_function(*old(self), name.value@, params@) ==> (frag_block(
                    g,
                    body@,
                    old(self).labels_issued(),
                    old(self).exit_labels(),
                ) matches Some((c, k)) ==> (old(self).labels_issued() + k <= usize::MAX && old(
                    self,
                ).functions_issued() < usize::MAX ==> res is Ok && views(final(self).instrs()) == views(
                    old(self).instrs(),
                ) + seq![InstructionV::FunctionLabel(name.value@)] + c + (if body@.len() > 0 && body@.last() is Return {
                    Seq::<InstructionV>::empty()
                } else {
                    seq![InstructionV::Return { value: ValueV::Void }]
                }))))),
            all_simple_fns(program.statements@) && old(self).nothing_deferred() && old(self).functions_issued()
                + program.statements@.len() <= usize::MAX ==> res is Ok && views(final(self).instrs()) == views(
                old(self).instrs(),
            ) + empty_functions_code(simple_fn_names(program.statements@)),
            plain_program(*old(self), program.statements@) matches Some((pc, pk)) && old(self).nothing_deferred()
                && old(self).functions_issued() + program.statements@.len() <= usize::MAX && old(self).labels_issued()
                + pk <= usize::MAX ==> res is Ok && views(final(self).instrs()) == views(old(self).instrs()) + (plain_program(
                *old(self),
                program.statements@,
            )->0).0,
    {
        proof {
            lemma_stmts_no_use(program.statements@);
            lemma_extends_refl(*self);
        }
        let mut i: usize = 0;
        while i < program.statements.len()
            invariant
                0 <= i <= program.statements@.len(),
                self.wf(),
                self.extends(&*old(self)),
                forall|j: int| 0 <= j < program.statements@.len() ==> #[trigger] stmt_no_use(program.statements@[j]),
                forall|j: int| 0 <= j < i ==> #[trigger] top_level_declaration(program.statements@[j]),
                i == 0 ==> *self == *old(self),
                i == 1 && program.statements@.len() == 1 ==> (simple_fn_decl(program.statements@[0]) matches Some(n) ==> (
                old(self).nothing_deferred() && old(self).functions_issued() < usize::MAX ==> views(self.code@)
                    == views(old(self).code@) + seq![
                    InstructionV::FunctionLabel(n),
                    InstructionV::Return { value: ValueV::Void },
                ] && self.nothing_deferred())),
                i == 1 && program.statements@.len() == 1 ==> (program.statements@[0] matches Stmt::Function {
                    name,
                    generic_params,
                    params,
                    body,
                    ..
                } ==> (generic_params@.len() == 0 && !has_variadic_param(params@) ==> function_code(
                    name.value@,
                    params@,
                    body@,
                    views(old(self).code@),
                    views(self.code@),
                ))),
                i == 1 && program.statements@.len() == 1 ==> (program.statements@[0] matches Stmt::Function {
                    name,
                    generic_params,
                    params,
                    body,
                    rttype: None,
                    ..
                } ==> (generic_params@.len() == 0 && params@.len() == 0 && old(self).nothing_deferred() ==> forall|
                    g: IRGen,
                |
                    #[trigger] g.entered_function(*old(self), name.value@, params@) ==> (frag_block(
                        g,
                        body@,
                        old(self).labels_issued(),
                        old(self).exit_labels(),
                    ) matches Some((c, k)) ==> (old(self).labels_issued() + k <= usize::MAX && old(
                        self,
                    ).functions_issued() < usize::MAX ==> views(self.code@) == views(old(self).code@) + seq![
                        InstructionV::FunctionLabel(name.value@),
                    ] + c + (if body@.len() > 0 && body@.last() is Return {
                    Seq::<InstructionV>::empty()
                } else {
                    seq![InstructionV::Return { value: ValueV::Void }]
                }) && self.nothing_deferred())))),
                all_simple_fns(program.statements@) && old(self).nothing_deferred() && old(self).functions_issued()
                + program.statements@.len() <= usize::MAX ==> views(self.code@) == views(old(self).code@)
                    + empty_functions_code(simple_fn_names(program.statements@).take(i as int)) && self.nothing_deferred()
                    && self.functions_issued() == old(self).functions_issued() + i,
                plain_program(*old(self), program.statements@) matches Some((pc, pk)) && old(self).nothing_deferred()
                && old(self).functions_issued() + program.statements@.len() <= usize::MAX && old(self).labels_issued()
                + pk <= usize::MAX ==> (plain_program(*old(self), program.statements@.take(i as int)) matches Some(
                    (c, k),
                ) && views(self.code@) == views(old(self).code@) + c && self.labels_issued() == old(
                    self,
                ).labels_issued() + k && self.functions_issued() == old(self).functions_issued() + i
                    && self.exit_labels() == old(self).exit_labels() && self.nothing_deferred()),
            decreases program.statements.len() - i,
        {
            let stmt = &program.statements[i];
            proof {
                if plain_program(*old(self), program.statements@) matches Some((pc, pk)) && old(self).nothing_deferred()
                && old(self).functions_issued() + program.statements@.len() <= usize::MAX && old(self).labels_issued()
                + pk <= usize::MAX {
                    lemma_plain_prefix(*old(self), program.statements@, i as int);
                    lemma_plain_prefix(*old(self), program.statements@, i + 1);
                    assert(program.statements@.take(i + 1).drop_last() =~= program.statements@.take(i as int));
                    assert(program.statements@.take(i + 1).last() == program.statements@[i as int]);
                    let st = program.statements@[i as int];
                    assert(st is Function);
                    if let Stmt::Function { body, .. } = st {
                        lemma_frag_block_closed(*old(self), *self, body@, self.labels_issued(), self.exit_labels());
                    }
                }
            }
            if !matches!(stmt, Stmt::Function { .. }) && !matches!(stmt, Stmt::Extern { .. }) && !matches!(
                stmt,
                Stmt::Struct { .. }
            ) && !matches!(stmt, Stmt::Constant { .. }) && !matches!(stmt, Stmt::Enum { .. }) {
                return Err(lower_error("Codegen Error: top-level statement outside of a function is not supported."));
            }
            let ghost pre = *self;
            proof {
                if all_simple_fns(program.statements@) && old(self).nothing_deferred() && old(self).functions_issued()
                + program.statements@.len() <= usize::MAX {
                    assert(simple_fn_decl(program.statements@[i as int]) is Some);
                }
            }
            self.gen_stmt(stmt)?;
            proof {
                if plain_program(*old(self), program.statements@) matches Some((pc, pk)) && old(self).nothing_deferred()
                && old(self).functions_issued() + program.statements@.len() <= usize::MAX && old(self).labels_issued()
                + pk <= usize::MAX {
                    let st = program.statements@[i as int];
                    let (c0, k0) = plain_program(*old(self), program.statements@.take(i as int))->0;
                    if let Stmt::Function { name, params, body, .. } = st {
                        let (c2, k2) = frag_block(*old(self), body@, old(self).labels_issued() + k0, old(self).exit_labels())->0;
                        assert(views(self.code@) =~= views(old(self).code@) + (c0 + seq![
                            InstructionV::FunctionLabel(name.value@),
                        ] + param_code(name.value@, params@) + c2 + body_tail(body@)));
                    }
                }
            }
            proof {
                if all_simple_fns(program.statements@) && old(self).nothing_deferred() && old(self).functions_issued()
                + program.statements@.len() <= usize::MAX {
                    let names = simple_fn_names(program.statements@);
                    assert(names.take(i + 1).drop_last() =~= names.take(i as int));
                    assert(names.take(i + 1).last() == simple_fn_decl(program.statements@[i as int])->0);
                    assert(views(self.code@) =~= views(old(self).code@) + empty_functions_code(names.take(i + 1)));
                }
            }
            i = i + 1;
        }
        let ghost mid = *self;
        proof {
            assert(simple_fn_names(program.statements@).take(program.statements@.len() as int) =~= simple_fn_names(
                program.statements@,
            ));
            assert(program.statements@.take(program.statements@.len() as int) =~= program.statements@);
        }
        proof {
            lemma_extends_refl(mid);
        }
        let mut instantiation_budget: usize = usize::MAX;
        while self.deferred_instantiations.len() > 0
            invariant
                self.wf(),
                self.extends(&*old(self)),
                self.extends(&mid),
                program.statements@.len() == 0 && old(self).nothing_deferred() ==> *self == *old(self),
                program.statements@.len() == 1 && simple_fn_decl(program.statements@[0]) is Some
                    && old(self).nothing_deferred() && old(self).functions_issued() < usize::MAX ==> *self == mid
                    && mid.nothing_deferred(),
                mid.nothing_deferred() ==> *self == mid,
                plain_program(*old(self), program.statements@) matches Some((pc, pk)) && old(self).nothing_deferred()
                && old(self).functions_issued() + program.statements@.len() <= usize::MAX && old(self).labels_issued()
                + pk <= usize::MAX ==> mid.nothing_deferred() && views(mid.code@) == views(old(self).code@) + (plain_program(
                    *old(self),
                    program.statements@,
                )->0).0,
                all_simple_fns(program.statements@) && old(self).nothing_deferred() && old(self).functions_issued()
                + program.statements@.len() <= usize::MAX ==> mid.nothing_deferred() && views(mid.code@) == views(old(self).code@)
                    + empty_functions_code(simple_fn_names(program.statements@)),
                lone_fragment_function(*old(self), *program) ==> mid.nothing_deferred(),
            decreases instantiation_budget,
        {
            proof {
                assert(!lone_fragment_function(*old(self), *program));
                if program.statements@.len() == 1 {
                    match program.statements@[0] {
                        Stmt::Function { name, generic_params, params, body, rttype: None, .. } => {
                            if generic_params@.len() == 0 && params@.len() == 0 && old(self).nothing_deferred() {
                                assert forall|g: IRGen| #[trigger]
                                    g.entered_function(*old(self), name.value@, params@) implies !(frag_block(
                                    g,
                                    body@,
                                    old(self).labels_issued(),
                                    old(self).exit_labels(),
                                ) matches Some((c, k)) && old(self).labels_issued() + k <= usize::MAX && old(
                                    self,
                                ).functions_issued() < usize::MAX) by {}
                            }
                        },
                        _ => {},
                    }
                }
            }
            if instantiation_budget == 0 {
                return Err(lower_error("Internal error: too many instances of generic functions."));
            }
            instantiation_budget = instantiation_budget - 1;
            let (callee_name, generic_args, variadic_types) = match self.deferred_instantiations.pop() {
                Some(d) => d,
                None => {
                    break;
                },
            };
            let blueprint = match self.fn_blueprints.get(callee_name.as_str()) {
                Some(bp) => {
                    proof {
                        assert(self.fn_blueprints.has(callee_name@));
                    }
                    Some(bp.duplicate())
                },
                None => None,
            };
            if let Some(bp) = blueprint {
                let ghost before = *self;
                self.gen_instance(&bp, &generic_args, &variadic_types)?;
                proof {
                    lemma_extends_trans(*self, before, mid);
                }
            }
        }
        proof {
            if program.statements@.len() == 1 {
                let fc = views(mid.code@);
                lemma_views_extend(mid.code@, self.code@);
                assert(fc == views(self.code@).subrange(0, fc.len() as int));
                if let Stmt::Function { name, generic_params, params, body, .. } = program.statements@[0] {
                    if generic_params@.len() == 0 && !has_variadic_param(params@) {
                        assert(function_code(name.value@, params@, body@, views(old(self).instrs()), fc));
                        assert(fc.len() <= views(self.instrs()).len());
                        assert(fc == views(self.instrs()).subrange(0, fc.len() as int));
                    }
                }
            }
        }
        Ok(())
    }

    /// Generates the instance of the generic or variadic function `blueprint` for the type
    /// arguments `generic_args` and the pack types `variadic_types`.
    fn gen_instance(&mut self, blueprint: &Stmt, generic_args: &Vec<Type>, variadic_types: &Vec<Type>) -> (res:
        Result<(), LowerError>)
        requires
            old(self).wf(),
            stmt_no_use(*blueprint),
        ensures
            final(self).wf(),
            res is Ok ==> final(self).extends(&*old(self)),
            blueprint is Function ==> (res is Ok ==> final(self).instrs().len() > old(self).instrs().len() && final(
                self).instrs()[old(self).instrs().len() as int].view() is FunctionLabel && final(self).instrs().last().view() is Return),
            !(blueprint is Function) ==> res is Ok && *final(self) == *old(self),
    {
        proof {
            lemma_extends_refl(*self);
        }
        let (name, generic_params, params, body, rttype) = match blueprint {
            Stmt::Function { name, generic_params, params, body, rttype, .. } => (
                name,
                generic_params,
                params,
                body,
                rttype,
            ),
            _ => {
                return Ok(());
            },
        };
        let mut has_variadic = false;
        let mut k: usize = 0;
        while k < params.len()
            invariant
                0 <= k <= params@.len(),
                has_variadic == exists|m: int| 0 <= m < k && #[trigger] params@[m].is_variadic,
            decreases params.len() - k,
        {
            if params[k].is_variadic {
                has_variadic = true;
            }
            k = k + 1;
        }
        let resolved_func_name = self.mangle_call_name(name.value.as_str(), generic_args, variadic_types, has_variadic)?;
        let mut substitutions: StrMap<Type> = StrMap::new();
        let mut q: usize = 0;
        while q < generic_params.len() && q < generic_args.len()
            invariant
                substitutions.wf(),
            decreases generic_params.len() - q,
        {
            substitutions.insert(generic_params[q].clone(), clone_type(&generic_args[q]));
            q = q + 1;
        }
        std::mem::swap(&mut self.current_substitutions, &mut substitutions);
        let mut old_func = resolved_func_name.clone();
        std::mem::swap(&mut self.current_function, &mut old_func);
        let ghost mid = *self;
        proof {
            lemma_extends_refl(mid);
        }
        self.push_code(Instruction::FunctionLabel(resolved_func_name.clone()));
        let ghost lab = *self;
        proof {
            lemma_extends_refl(lab);
        }
        let mut i: usize = 0;
        while i < params.len()
            invariant
                0 <= i <= params@.len(),
                self.wf(),
                self.extends(&mid),
                self.extends(&lab),
                lab.code@.len() == old(self).code@.len() + 1,
                lab.code@[old(self).code@.len() as int].view() is FunctionLabel,
                blueprint is Function,
            decreases params.len() - i,
        {
            if !params[i].is_variadic {
                let unique_param_name = concat3(resolved_func_name.as_str(), "::", params[i].name.value.as_str());
                if let Some(param_ty) = &params[i].ptype {
                    let resolved_param_ty = self.resolve_type(param_ty)?;
                    self.var_types.insert(unique_param_name.clone(), resolved_param_ty);
                }
                self.push_code(Instruction::Param { p: unique_param_name });
            }
            i = i + 1;
        }
        let mut v: usize = 0;
        let mut found: Option<usize> = None;
        while v < params.len()
            invariant
                0 <= v <= params@.len(),
                found matches Some(x) ==> x < params@.len(),
            decreases params.len() - v,
        {
            if params[v].is_variadic {
                found = Some(v);
                break;
            }
            v = v + 1;
        }
        if let Some(x) = found {
            let variadic_param = &params[x];
            let struct_name = concat("__variadic__", resolved_func_name.as_str());
            self.instantiate_variadic_struct(struct_name.as_str(), variadic_types, variadic_param.name.location.duplicate())?;
            let unique_param_name = concat3(resolved_func_name.as_str(), "::", variadic_param.name.value.as_str());
            self.var_types.insert(unique_param_name.clone(), Type::Struct(struct_name));
            self.push_code(Instruction::Param { p: unique_param_name });
        }
        proof {
            lemma_stmts_no_use(body@);
        }
        let mut j: usize = 0;
        while j < body.len()
            invariant
                0 <= j <= body@.len(),
                self.wf(),
                self.extends(&mid),
                self.extends(&lab),
                lab.code@.len() == old(self).code@.len() + 1,
                lab.code@[old(self).code@.len() as int].view() is FunctionLabel,
                blueprint is Function,
                forall|m: int| 0 <= m < body@.len() ==> #[trigger] stmt_no_use(body@[m]),
            decreases body.len() - j,
        {
            self.gen_stmt(&body[j])?;
            j = j + 1;
        }
        let base_return_ty = match rttype {
            Some(t) => clone_type(t),
            None => Type::Void,
        };
        let resolved_return_ty = self.resolve_type(&base_return_ty)?;
        let n = self.code.len();
        let ends_with_return = n > 0 && matches!(self.code[n - 1], Instruction::Return { .. });
        if !ends_with_return {
            let fallback_val = if matches!(resolved_return_ty, Type::Void) {
                Value::Void
            } else if matches!(resolved_return_ty, Type::Struct(_) | Type::GenericInstance { .. }) {
                let dummy_dst = self.next_temp_with_type(clone_type(&resolved_return_ty))?;
                Value::Temp(dummy_dst)
            } else {
                Value::Const(0)
            };
            self.push_code(Instruction::Return { value: fallback_val });
        }
        proof {
            lemma_extends_back(*self, mid, *old(self));
        }
        self.current_function = old_func;
        std::mem::swap(&mut self.current_substitutions, &mut substitutions);
        Ok(())
    }
}

} // verus!
