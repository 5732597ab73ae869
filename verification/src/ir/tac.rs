//! The three-address code that the compiler lowers programs to, and the scoped table of
//! variable types used while lowering.
use crate::parse::parsing::{clone_type, Type, TypeV};
use crate::utils::strmap::StrMap;
use vstd::prelude::*;

verus! {

/// An operation of the three-address code.
#[derive(Debug, Clone, Copy, PartialEq, Eq, Structural)]
pub enum IrOp {
    Add,
    Sub,
    Mul,
    Div,
    /// `%`
    Mod,
    /// unary minus
    Neg,
    /// unary plus
    Pos,
    /// unary `&`
    Ref,
    /// unary `!`
    Not,
    /// `==`
    Eq,
    /// `!=`
    NEq,
    /// `>`
    Gt,
    /// `>=`
    GtE,
    /// `<`
    Lt,
    /// `<=`
    LtE,
    /// `&&`
    And,
    /// `||`
    Or,
}

/// How a value is converted by a cast.
#[derive(Debug, Clone, Copy, PartialEq, Eq, Structural)]
pub enum CastType {
    /// The bits are kept as they are.
    BitCast,
    /// A narrower integer is widened.
    Extend,
    /// A wider integer is narrowed.
    Truncate,
    /// A `float` becomes a `double`.
    FloatExtend,
    /// A `double` becomes a `float`.
    FloatTruncate,
    /// An integer becomes a floating-point number.
    IntToFloat,
    /// A floating-point number becomes an integer.
    FloatToInt,
}

/// An operand of the three-address code.
#[derive(Debug)]
pub enum Value {
    Const(i64),
    Temp(String),
    Var(String),
    Void,
    Str(String),
    Char(char),
    Bool(bool),
    /// A `double` constant, by its bits.
    Double(u64),
    /// A `float` constant, by its bits.
    Float(u32),
    Nil,
}

/// An instruction of the three-address code.
#[derive(Debug)]
pub enum Instruction {
    Assign { dst: String, src: Value },
    Binary { dst: String, op: IrOp, lhs: Value, rhs: Value },
    Unary { dst: String, op: IrOp, value: Value },
    Label(String),
    FunctionLabel(String),
    Jump(String),
    JumpIfFalse { cond: Value, target: String },
    Param { p: String },
    Return { value: Value },
    Arg { value: Value },
    Call { dest: Option<String>, name: String, argc: usize },
    Store { ptr: Value, source: Value },
    Load { dst: String, ptr: Value, ty: Type },
    Extern { fnname: String },
    Cast { dst: String, cast_ty: CastType, value: Value, to_type: Type },
}

/// The value of an operand.
pub enum ValueV {
    Const(i64),
    Temp(Seq<char>),
    Var(Seq<char>),
    Void,
    Str(Seq<char>),
    Char(char),
    Bool(bool),
    /// A `double` constant, by its bits.
    Double(u64),
    /// A `float` constant, by its bits.
    Float(u32),
    Nil,
}

impl Value {
    pub open spec fn view(&self) -> ValueV {
        match self {
            Value::Const(i) => ValueV::Const(*i),
            Value::Temp(s) => ValueV::Temp(s@),
            Value::Var(s) => ValueV::Var(s@),
            Value::Void => ValueV::Void,
            Value::Str(s) => ValueV::Str(s@),
            Value::Char(c) => ValueV::Char(*c),
            Value::Bool(b) => ValueV::Bool(*b),
            Value::Double(d) => ValueV::Double(*d),
            Value::Float(f) => ValueV::Float(*f),
            Value::Nil => ValueV::Nil,
        }
    }

    /// A copy of this operand.
    pub fn duplicate(&self) -> (res: Value)
        ensures
            res.view() == self.view(),
    {
        match self {
            Value::Const(i) => Value::Const(*i),
            Value::Temp(s) => Value::Temp(s.clone()),
            Value::Var(s) => Value::Var(s.clone()),
            Value::Void => Value::Void,
            Value::Str(s) => Value::Str(s.clone()),
            Value::Char(c) => Value::Char(*c),
            Value::Bool(b) => Value::Bool(*b),
            Value::Double(d) => Value::Double(*d),
            Value::Float(f) => Value::Float(*f),
            Value::Nil => Value::Nil,
        }
    }
}

/// The value of an instruction.
pub enum InstructionV {
    Assign { dst: Seq<char>, src: ValueV },
    Binary { dst: Seq<char>, op: IrOp, lhs: ValueV, rhs: ValueV },
    Unary { dst: Seq<char>, op: IrOp, value: ValueV },
    Label(Seq<char>),
    FunctionLabel(Seq<char>),
    Jump(Seq<char>),
    JumpIfFalse { cond: ValueV, target: Seq<char> },
    Param { p: Seq<char> },
    Return { value: ValueV },
    Arg { value: ValueV },
    Call { dest: Option<Seq<char>>, name: Seq<char>, argc: usize },
    Store { ptr: ValueV, source: ValueV },
    Load { dst: Seq<char>, ptr: ValueV, ty: TypeV },
    Extern { fnname: Seq<char> },
    Cast { dst: Seq<char>, cast_ty: CastType, value: ValueV, to_type: TypeV },
}

impl Instruction {
    pub open spec fn view(&self) -> InstructionV {
        match self {
            Instruction::Assign { dst, src } => InstructionV::Assign { dst: dst@, src: src.view() },
            Instruction::Binary { dst, op, lhs, rhs } => InstructionV::Binary {
                dst: dst@,
                op: *op,
                lhs: lhs.view(),
                rhs: rhs.view(),
            },
            Instruction::Unary { dst, op, value } => InstructionV::Unary {
                dst: dst@,
                op: *op,
                value: value.view(),
            },
            Instruction::Label(l) => InstructionV::Label(l@),
            Instruction::FunctionLabel(l) => InstructionV::FunctionLabel(l@),
            Instruction::Jump(l) => InstructionV::Jump(l@),
            Instruction::JumpIfFalse { cond, target } => InstructionV::JumpIfFalse {
                cond: cond.view(),
                target: target@,
            },
            Instruction::Param { p } => InstructionV::Param { p: p@ },
            Instruction::Return { value } => InstructionV::Return { value: value.view() },
            Instruction::Arg { value } => InstructionV::Arg { value: value.view() },
            Instruction::Call { dest, name, argc } => InstructionV::Call {
                dest: match dest {
                    Some(d) => Some(d@),
                    None => None,
                },
                name: name@,
                argc: *argc,
            },
            Instruction::Store { ptr, source } => InstructionV::Store {
                ptr: ptr.view(),
                source: source.view(),
            },
            Instruction::Load { dst, ptr, ty } => InstructionV::Load {
                dst: dst@,
                ptr: ptr.view(),
                ty: ty@,
            },
            Instruction::Extern { fnname } => InstructionV::Extern { fnname: fnname@ },
            Instruction::Cast { dst, cast_ty, value, to_type } => InstructionV::Cast {
                dst: dst@,
                cast_ty: *cast_ty,
                value: value.view(),
                to_type: to_type@,
            },
        }
    }

    /// A copy of this instruction.
    pub fn duplicate(&self) -> (res: Instruction)
        ensures
            res.view() == self.view(),
    {
        match self {
            Instruction::Assign { dst, src } => Instruction::Assign {
                dst: dst.clone(),
                src: src.duplicate(),
            },
            Instruction::Binary { dst, op, lhs, rhs } => Instruction::Binary {
                dst: dst.clone(),
                op: *op,
                lhs: lhs.duplicate(),
                rhs: rhs.duplicate(),
            },
            Instruction::Unary { dst, op, value } => Instruction::Unary {
                dst: dst.clone(),
                op: *op,
                value: value.duplicate(),
            },
            Instruction::Label(l) => Instruction::Label(l.clone()),
            Instruction::FunctionLabel(l) => Instruction::FunctionLabel(l.clone()),
            Instruction::Jump(l) => Instruction::Jump(l.clone()),
            Instruction::JumpIfFalse { cond, target } => Instruction::JumpIfFalse {
                cond: cond.duplicate(),
                target: target.clone(),
            },
            Instruction::Param { p } => Instruction::Param { p: p.clone() },
            Instruction::Return { value } => Instruction::Return { value: value.duplicate() },
            Instruction::Arg { value } => Instruction::Arg { value: value.duplicate() },
            Instruction::Call { dest, name, argc } => Instruction::Call {
                dest: match dest {
                    Some(d) => Some(d.clone()),
                    None => None,
                },
                name: name.clone(),
                argc: *argc,
            },
            Instruction::Store { ptr, source } => Instruction::Store {
                ptr: ptr.duplicate(),
                source: source.duplicate(),
            },
            Instruction::Load { dst, ptr, ty } => Instruction::Load {
                dst: dst.clone(),
                ptr: ptr.duplicate(),
                ty: clone_type(ty),
            },
            Instruction::Extern { fnname } => Instruction::Extern { fnname: fnname.clone() },
            Instruction::Cast { dst, cast_ty, value, to_type } => Instruction::Cast {
                dst: dst.clone(),
                cast_ty: *cast_ty,
                value: value.duplicate(),
                to_type: clone_type(to_type),
            },
        }
    }
}

/// The values of a sequence of instructions.
pub open spec fn instrs_view(s: Seq<Instruction>) -> Seq<InstructionV> {
    s.map_values(|i: Instruction| i.view())
}

/// The value of the type that the scope `m` binds to `k`, if any.
pub open spec fn type_at(m: StrMap<Type>, k: Seq<char>) -> Option<TypeV> {
    match m.lookup(k) {
        Some(t) => Some(t@),
        None => None,
    }
}

/// The type bound to `k` in the innermost of `scopes` that binds it.
pub open spec fn scoped_lookup(scopes: Seq<StrMap<Type>>, k: Seq<char>) -> Option<TypeV>
    decreases scopes.len(),
{
    if scopes.len() == 0 {
        None
    } else {
        match type_at(scopes.last(), k) {
            Some(t) => Some(t),
            None => scoped_lookup(scopes.drop_last(), k),
        }
    }
}

/// Whether one of the first `i` entries of `m` binds `k`.
pub open spec fn bound_before(m: StrMap<Type>, i: int, k: Seq<char>) -> bool {
    exists|j: int| 0 <= j < i && m.entries@[j].0@ == k
}

/// Nested scopes of variable types: lookups search from the innermost scope outwards.
#[derive(Debug)]
pub struct ScopedMap {
    pub scopes: Vec<StrMap<Type>>,
}

impl ScopedMap {
    /// There is always an outermost scope, and no scope binds a name twice.
    pub open spec fn wf(&self) -> bool {
        &&& self.scopes@.len() >= 1
        &&& forall|i: int| 0 <= i < self.scopes@.len() ==> (#[trigger] self.scopes@[i]).wf()
    }

    /// The type that `k` names here, if any.
    pub open spec fn lookup(&self, k: Seq<char>) -> Option<TypeV> {
        scoped_lookup(self.scopes@, k)
    }

    /// `next` is `self` with an empty inner scope opened.
    pub open spec fn pushed(&self, next: &ScopedMap) -> bool {
        &&& next.scopes@.len() == self.scopes@.len() + 1
        &&& next.scopes@.drop_last() == self.scopes@
        &&& forall|k: Seq<char>| !next.scopes@.last().has(k)
    }

    /// `next` is `self` with its innermost scope closed: the only scope stays; otherwise
    /// the parent takes each binding of the closed scope whose name it does not bind.
    pub open spec fn popped(&self, next: &ScopedMap) -> bool {
        if self.scopes@.len() == 1 {
            next.scopes@ == self.scopes@
        } else {
            let n = self.scopes@.len();
            let top = self.scopes@[n - 1];
            let parent = self.scopes@[n - 2];
            &&& next.scopes@.len() == n - 1
            &&& next.scopes@.drop_last() == self.scopes@.take(n - 2)
            &&& forall|k: Seq<char>| #[trigger] type_at(next.scopes@.last(), k) == if parent.has(k) {
                type_at(parent, k)
            } else {
                type_at(top, k)
            }
            &&& forall|k: Seq<char>| #[trigger] next.scopes@.last().has(k) == (parent.has(k) || top.has(k))
        }
    }

    /// Scopes made of one outermost scope, `initial`.
    pub fn new(initial: StrMap<Type>) -> (res: Self)
        requires
            initial.wf(),
        ensures
            res.wf(),
            res.scopes@ == seq![initial],
    {
        let mut scopes = Vec::new();
        scopes.push(initial);
        assert(scopes@ =~= seq![initial]);
        Self { scopes }
    }

    /// Opens an inner scope, empty.
    pub fn push_scope(&mut self)
        requires
            old(self).wf(),
        ensures
            final(self).wf(),
            old(self).pushed(&*final(self)),
    {
        self.scopes.push(StrMap::new());
        assert(self.scopes@.drop_last() =~= old(self).scopes@);
    }

    /// Closes the innermost scope, unless it is the only one: each binding of the closed
    /// scope whose name its parent does not bind moves to the parent.
    pub fn pop_scope(&mut self)
        requires
            old(self).wf(),
        ensures
            final(self).wf(),
            old(self).popped(&*final(self)),
    {
        if self.scopes.len() > 1 {
            let ghost n = self.scopes@.len();
            let ghost old_scopes = self.scopes@;
            let popped = self.scopes.pop().unwrap();
            let mut parent = self.scopes.pop().unwrap();
            let ghost parent0 = parent;
            assert(old_scopes[n - 1] == popped);
            assert(old_scopes[n - 2] == parent0);
            assert(old_scopes[n - 1].wf());
            assert(old_scopes[n - 2].wf());
            let mut i: usize = 0;
            while i < popped.entries.len()
                invariant
                    0 <= i <= popped.entries@.len(),
                    popped.wf(),
                    parent0.wf(),
                    parent.wf(),
                    forall|k: Seq<char>| #[trigger] parent.has(k) == (parent0.has(k) || bound_before(popped, i as int, k)),
                    forall|k: Seq<char>| #[trigger] type_at(parent, k) == if parent0.has(k) {
                        type_at(parent0, k)
                    } else if bound_before(popped, i as int, k) {
                        type_at(popped, k)
                    } else {
                        None
                    },
                decreases popped.entries@.len() - i,
            {
                let key = &popped.entries[i].0;
                let ghost before = parent;
                proof {
                    assert forall|j: int| 0 <= j < i implies popped.entries@[j].0@ != key@ by {
                        assert(j != i);
                    }
                }
                if !parent.contains_key(key.as_str()) {
                    let value = crate::parse::parsing::clone_type(&popped.entries[i].1);
                    assert(popped.lookup(key@) == Some(popped.entries@[i as int].1)) by {
                        assert(popped.has(key@));
                        let c = choose|j: int| 0 <= j < popped.entries@.len() && popped.entries@[j].0@ == key@;
                        assert(c == i);
                    }
                    parent.insert(key.clone(), value);
                    proof {
                        assert(type_at(parent, key@) == type_at(popped, key@));
                        assert(!before.has(key@));
                        assert(!parent0.has(key@));
                    }
                } else {
                    proof {
                        assert(!bound_before(popped, i as int, key@));
                        assert(parent0.has(key@));
                    }
                }
                proof {
                    assert forall|k: Seq<char>| k != key@ implies #[trigger] type_at(parent, k) == type_at(before, k) by {}
                    assert forall|k: Seq<char>| #[trigger] bound_before(popped, i + 1, k)
                        == (bound_before(popped, i as int, k) || k == key@) by {
                        if k == key@ {
                            assert(popped.entries@[i as int].0@ == k);
                        }
                        if bound_before(popped, i + 1, k) {
                            let j = choose|j: int| 0 <= j < i + 1 && popped.entries@[j].0@ == k;
                            if j < i {
                                assert(0 <= j < i && popped.entries@[j].0@ == k);
                            }
                        }
                    }
                    assert forall|k: Seq<char>| #[trigger] type_at(parent, k) == if parent0.has(k) {
                        type_at(parent0, k)
                    } else if bound_before(popped, i + 1, k) {
                        type_at(popped, k)
                    } else {
                        None
                    } by {
                        assert(bound_before(popped, i + 1, k) == (bound_before(popped, i as int, k) || k == key@));
                        if k == key@ {
                            assert(!bound_before(popped, i as int, k));
                        }
                    }
                }
                i = i + 1;
            }
            proof {
                assert forall|k: Seq<char>| #[trigger] bound_before(popped, popped.entries@.len() as int, k)
                    == popped.has(k) by {}
            }
            self.scopes.push(parent);
            assert(self.scopes@.drop_last() =~= old_scopes.take(n - 2));
        }
    }

    /// Binds `key` to `value` in the innermost scope.
    pub fn insert(&mut self, key: String, value: Type)
        requires
            old(self).wf(),
        ensures
            final(self).wf(),
            final(self).scopes@.len() == old(self).scopes@.len(),
            final(self).scopes@.drop_last() == old(self).scopes@.drop_last(),
            type_at(final(self).scopes@.last(), key@) == Some(value@),
            final(self).lookup(key@) == Some(value@),
            forall|k: Seq<char>| k != key@ ==> #[trigger] final(self).lookup(k) == old(self).lookup(k),
            forall|k: Seq<char>| k != key@ ==> #[trigger] type_at(final(self).scopes@.last(), k) == type_at(old(self).scopes@.last(), k),
            forall|k: Seq<char>| #[trigger] final(self).scopes@.last().has(k) == (old(self).scopes@.last().has(k) || k == key@),
    {
        let mut top = self.scopes.pop().unwrap();
        top.insert(key, value);
        self.scopes.push(top);
        assert(self.scopes@.drop_last() =~= old(self).scopes@.drop_last());
    }

    /// The type that `key` names, searching from the innermost scope outwards.
    pub fn get(&self, key: &str) -> (res: Option<&Type>)
        requires
            self.wf(),
        ensures
            match res {
                Some(t) => self.lookup(key@) == Some(t@),
                None => self.lookup(key@) is None,
            },
    {
        let mut i = self.scopes.len();
        assert(self.scopes@.take(i as int) =~= self.scopes@);
        while i > 0
            invariant
                0 <= i <= self.scopes@.len(),
                self.wf(),
                self.lookup(key@) == scoped_lookup(self.scopes@.take(i as int), key@),
            decreases i,
        {
            let ghost pre = self.scopes@.take(i as int);
            assert(pre.last() == self.scopes@[i - 1]);
            assert(pre.drop_last() =~= self.scopes@.take(i - 1));
            match self.scopes[i - 1].get(key) {
                Some(t) => {
                    return Some(t);
                },
                None => {},
            }
            i = i - 1;
        }
        None
    }
}

/// Opening a scope changes no lookup.
pub proof fn lemma_push_keeps_lookup(a: ScopedMap, b: ScopedMap, k: Seq<char>)
    requires
        a.wf(),
        a.pushed(&b),
    ensures
        b.lookup(k) == a.lookup(k),
{
    assert(type_at(b.scopes@.last(), k) is None);
}

/// Opening a scope and closing it at once gives back every lookup.
pub proof fn lemma_push_pop_restores(a: ScopedMap, b: ScopedMap, c: ScopedMap, k: Seq<char>)
    requires
        a.wf(),
        a.pushed(&b),
        b.popped(&c),
    ensures
        c.lookup(k) == a.lookup(k),
        c.scopes@.len() == a.scopes@.len(),
{
    let n = b.scopes@.len();
    assert(b.scopes@[n - 2] == a.scopes@.last());
    assert(b.scopes@.last() == b.scopes@[n - 1]);
    assert(!b.scopes@.last().has(k));
    assert(c.scopes@.drop_last() =~= a.scopes@.drop_last());
    assert(type_at(c.scopes@.last(), k) == type_at(a.scopes@.last(), k));
}

/// A name bound in an inner scope and not in the scope around it stays visible, with
/// its type, once the inner scope closes.
pub proof fn lemma_pop_keeps_unshadowed(a: ScopedMap, b: ScopedMap, k: Seq<char>)
    requires
        a.wf(),
        a.scopes@.len() > 1,
        a.popped(&b),
        !a.scopes@[a.scopes@.len() - 2].has(k),
        a.scopes@.last().has(k),
    ensures
        b.lookup(k) == a.lookup(k),
{
    let n = a.scopes@.len();
    assert(type_at(a.scopes@.last(), k) is Some);
}

} // verus!
