//! A backend that writes x86-64 assembly for NASM: every temporary and variable lives
//! in an 8-byte stack slot below `rbp`.
use crate::backend::codegen::{sysv_arg_reg, Backend, Target};
use crate::ir::irgen::{binary_ir_op, fold_v, ConstValV};
use crate::ir::tac::{instrs_view, Instruction, InstructionV, IrOp, Value, ValueV};
use crate::parse::parsing::BinaryOp;
use crate::utils::strmap::StrMap;
use crate::utils::text::{concat, concat3, dec, dec_int, i64_to_string, usize_to_string};
use vstd::prelude::*;
use vstd::string::*;

verus! {

// ------------------------------------------------------------------------------------------
// Splitting a program into functions
// ------------------------------------------------------------------------------------------

/// The groups finished and the group under way after reading `p`: a function label
/// closes the group under way (if it holds anything) and opens a new one.
pub open spec fn split_state(p: Seq<InstructionV>) -> (Seq<Seq<InstructionV>>, Seq<InstructionV>)
    decreases p.len(),
{
    if p.len() == 0 {
        (Seq::empty(), Seq::empty())
    } else {
        let (funcs, current) = split_state(p.drop_last());
        let x = p.last();
        if x is FunctionLabel {
            if current.len() > 0 {
                (funcs.push(current), seq![x])
            } else {
                (funcs, seq![x])
            }
        } else {
            (funcs, current.push(x))
        }
    }
}

/// The functions of a program: its instructions cut before each function label, with
/// no empty group.
pub open spec fn split(p: Seq<InstructionV>) -> Seq<Seq<InstructionV>> {
    let (funcs, current) = split_state(p);
    if current.len() > 0 {
        funcs.push(current)
    } else {
        funcs
    }
}

/// The groups of `g`, one after the other.
pub open spec fn flatten(g: Seq<Seq<InstructionV>>) -> Seq<InstructionV>
    decreases g.len(),
{
    if g.len() == 0 {
        Seq::empty()
    } else {
        flatten(g.drop_last()) + g.last()
    }
}

/// Cuts a program into functions.
pub fn split_functions(program: &[Instruction]) -> (res: Vec<Vec<Instruction>>)
    ensures
        res@.map_values(|f: Vec<Instruction>| instrs_view(f@)) == split(instrs_view(program@)),
{
    let ghost pv = instrs_view(program@);
    let mut funcs: Vec<Vec<Instruction>> = Vec::new();
    let mut current: Vec<Instruction> = Vec::new();
    let mut i: usize = 0;
    while i < program.len()
        invariant
            0 <= i <= program@.len(),
            pv == instrs_view(program@),
            (funcs@.map_values(|f: Vec<Instruction>| instrs_view(f@)), instrs_view(current@))
                == split_state(pv.take(i as int)),
        decreases program.len() - i,
    {
        let ghost before_f = funcs@;
        let ghost before_c = current@;
        proof {
            assert(pv.take(i + 1).drop_last() =~= pv.take(i as int));
            assert(pv.take(i + 1).last() == program@[i as int].view());
        }
        let inst = program[i].duplicate();
        match &program[i] {
            Instruction::FunctionLabel(_) => {
                if current.len() > 0 {
                    funcs.push(current);
                    current = Vec::new();
                    assert(funcs@.map_values(|f: Vec<Instruction>| instrs_view(f@)) =~= before_f.map_values(
                        |f: Vec<Instruction>| instrs_view(f@),
                    ).push(instrs_view(before_c)));
                }
                current.push(inst);
                assert(instrs_view(current@) =~= seq![inst.view()]);
            },
            _ => {
                current.push(inst);
                assert(instrs_view(current@) =~= instrs_view(before_c).push(inst.view()));
            },
        }
        i = i + 1;
    }
    assert(pv.take(program.len() as int) =~= pv);
    if current.len() > 0 {
        let ghost before_f = funcs@;
        funcs.push(current);
        assert(funcs@.map_values(|f: Vec<Instruction>| instrs_view(f@)) =~= before_f.map_values(
            |f: Vec<Instruction>| instrs_view(f@),
        ).push(instrs_view(current@)));
    }
    funcs
}

/// Cutting a program into functions loses nothing and adds nothing.
pub proof fn lemma_split_flatten(p: Seq<InstructionV>)
    ensures
        flatten(split(p)) == p,
        forall|k: int| 0 <= k < split(p).len() ==> (#[trigger] split(p)[k]).len() > 0,
{
    lemma_split_state(p);
    let (funcs, current) = split_state(p);
    if current.len() > 0 {
        assert(funcs.push(current).drop_last() =~= funcs);
    } else {
        assert(current =~= Seq::<InstructionV>::empty());
        assert(p =~= flatten(funcs) + current);
    }
}

proof fn lemma_split_state(p: Seq<InstructionV>)
    ensures
        flatten(split_state(p).0) + split_state(p).1 == p,
        forall|k: int| 0 <= k < split_state(p).0.len() ==> (#[trigger] split_state(p).0[k]).len() > 0,
        p.len() > 0 ==> split_state(p).1.len() > 0,
    decreases p.len(),
{
    if p.len() > 0 {
        lemma_split_state(p.drop_last());
        let (funcs, current) = split_state(p.drop_last());
        let x = p.last();
        if x is FunctionLabel {
            if current.len() > 0 {
                assert(funcs.push(current).drop_last() =~= funcs);
                assert(flatten(funcs.push(current)) == flatten(funcs) + current);
                assert(p.drop_last().push(x) =~= p);
                assert(flatten(funcs.push(current)) + seq![x] =~= p);
            } else {
                assert(p.drop_last().push(x) =~= p);
                assert(flatten(funcs) + seq![x] =~= p);
            }
        } else {
            assert(p.drop_last().push(x) =~= p);
            assert(flatten(funcs) + current.push(x) =~= (flatten(funcs) + current).push(x));
        }
    }
}

/// Every function but the first starts with a function label, and no function holds a
/// function label anywhere but at its start.
pub proof fn lemma_split_labels(p: Seq<InstructionV>)
    ensures
        forall|k: int| 0 < k < split(p).len() ==> (#[trigger] split(p)[k])[0] is FunctionLabel,
        forall|k: int, j: int|
            0 <= k < split(p).len() && 0 < j < split(p)[k].len() ==> !((
            #[trigger] split(p)[k][j]) is FunctionLabel),
{
    lemma_split_state_labels(p);
    lemma_split_state(p);
}

proof fn lemma_split_state_labels(p: Seq<InstructionV>)
    ensures
        forall|k: int| 0 < k < split_state(p).0.len() ==> (#[trigger] split_state(p).0[k])[0] is FunctionLabel,
        split_state(p).0.len() > 0 ==> split_state(p).1.len() > 0 && split_state(p).1[0] is FunctionLabel,
        forall|k: int, j: int|
            0 <= k < split_state(p).0.len() && 0 < j < split_state(p).0[k].len() ==> !((
            #[trigger] split_state(p).0[k][j]) is FunctionLabel),
        forall|j: int| 0 < j < split_state(p).1.len() ==> !((#[trigger] split_state(p).1[j]) is FunctionLabel),
    decreases p.len(),
{
    if p.len() > 0 {
        lemma_split_state_labels(p.drop_last());
        lemma_split_state(p.drop_last());
    }
}


// ------------------------------------------------------------------------------------------
// Stack frames
// ------------------------------------------------------------------------------------------

/// The value of a stack frame: the offset below `rbp` of each slot, the last offset
/// given out, and the frame's size once finalized.
pub struct FrameV {
    pub slots: Map<Seq<char>, int>,
    pub next: int,
    pub size: int,
}

/// The frame with no slot.
pub open spec fn empty_frame() -> FrameV {
    FrameV { slots: Map::empty(), next: 0, size: 0 }
}

/// The frame after giving `name` a slot, if it has none: the next 8 bytes down.
pub open spec fn alloc_v(f: FrameV, name: Seq<char>) -> FrameV {
    if f.slots.contains_key(name) {
        f
    } else {
        FrameV { slots: f.slots.insert(name, f.next + 8), next: f.next + 8, size: f.size }
    }
}

/// The frame after giving each of `names` a slot, in order.
pub open spec fn alloc_all(f: FrameV, names: Seq<Seq<char>>) -> FrameV
    decreases names.len(),
{
    if names.len() == 0 {
        f
    } else {
        alloc_v(alloc_all(f, names.drop_last()), names.last())
    }
}

/// `n` rounded up to a multiple of 16.
pub open spec fn round16(n: int) -> int {
    ((n + 15) / 16) * 16
}

/// Slots are 8 bytes apart, below the last offset given out, and no two names share one.
pub open spec fn frame_wf(f: FrameV) -> bool {
    &&& f.next >= 0
    &&& f.next % 8 == 0
    &&& forall|k: Seq<char>| #[trigger] f.slots.contains_key(k) ==> 8 <= f.slots[k] <= f.next && f.slots[k] % 8 == 0
    &&& forall|a: Seq<char>, b: Seq<char>|
        #[trigger] f.slots.contains_key(a) && #[trigger] f.slots.contains_key(b) && a != b ==> f.slots[a] != f.slots[b]
}

/// Giving `names` slots moves the last offset by at most 8 bytes per name.
pub proof fn lemma_alloc_all_bound(f: FrameV, names: Seq<Seq<char>>)
    ensures
        f.next <= alloc_all(f, names).next <= f.next + 8 * names.len(),
        alloc_all(f, names).size == f.size,
        forall|k: Seq<char>| f.slots.contains_key(k) ==> #[trigger] alloc_all(f, names).slots.contains_key(k),
    decreases names.len(),
{
    if names.len() > 0 {
        lemma_alloc_all_bound(f, names.drop_last());
    }
}

/// Giving slots keeps a frame well formed: distinct names get distinct slots.
pub proof fn lemma_alloc_all_wf(f: FrameV, names: Seq<Seq<char>>)
    requires
        frame_wf(f),
    ensures
        frame_wf(alloc_all(f, names)),
        forall|i: int| 0 <= i < names.len() ==> #[trigger] alloc_all(f, names).slots.contains_key(names[i]),
    decreases names.len(),
{
    if names.len() > 0 {
        lemma_alloc_all_wf(f, names.drop_last());
        let g = alloc_all(f, names.drop_last());
        assert forall|i: int| 0 <= i < names.len() implies #[trigger] alloc_all(f, names).slots.contains_key(names[i]) by {
            if i < names.len() - 1 {
                assert(names.drop_last()[i] == names[i]);
                assert(g.slots.contains_key(names[i]));
            }
        }
    }
}

/// A stack frame: an 8-byte slot below `rbp` for each name, and the frame's size.
#[derive(Debug)]
pub struct StackFrame {
    slots: StrMap<i32>,
    next_offset: i32,
    size: i32,
}

impl StackFrame {
    pub closed spec fn view(&self) -> FrameV {
        FrameV {
            slots: Map::new(|k: Seq<char>| self.slots.has(k), |k: Seq<char>| self.slots.lookup(k)->0 as int),
            next: self.next_offset as int,
            size: self.size as int,
        }
    }

    /// The frame's table binds each name once, and its value is well formed.
    pub closed spec fn wf(&self) -> bool {
        &&& self.slots.wf()
        &&& frame_wf(self.view())
    }

    /// The frame with no slot.
    pub fn new() -> (res: Self)
        ensures
            res.wf(),
            res.view() == empty_frame(),
    {
        let res = Self { slots: StrMap::new(), next_offset: 0, size: 0 };
        assert(res.view().slots =~= Map::<Seq<char>, int>::empty());
        res
    }

    /// Gives `name` the next slot, unless it has one already.
    pub fn allocate(&mut self, name: &str)
        requires
            old(self).wf(),
            old(self).view().next + 8 + 15 <= i32::MAX,
        ensures
            final(self).wf(),
            final(self).view() == alloc_v(old(self).view(), name@),
    {
        if self.slots.contains_key(name) {
            return;
        }
        let ghost before = self.view();
        self.next_offset += 8;
        self.slots.insert(String::from_str(name), self.next_offset);
        proof {
            assert(self.view().slots =~= before.slots.insert(name@, before.next + 8));
        }
    }

    /// Sets the frame's size: the slots' extent rounded up to 16 bytes.
    pub fn finalize(&mut self)
        requires
            old(self).wf(),
            old(self).view().next + 15 <= i32::MAX,
        ensures
            final(self).wf(),
            final(self).view() == (FrameV { size: round16(old(self).view().next), ..old(self).view() }),
    {
        let n = self.next_offset;
        let m: i32 = n + 15;
        assert(m & !15i32 == (m / 16) * 16) by (bit_vector)
            requires
                0 <= m,
        ;
        self.size = m & !15;
    }

    /// The memory operand of the slot of `name`, which must have one: `[rbp - offset]`.
    pub fn addr(&self, name: &str) -> (res: String)
        requires
            self.wf(),
            self.view().slots.contains_key(name@),
        ensures
            res@ == addr_text(self.view(), name@),
    {
        let off = match self.slots.get(name) {
            Some(o) => *o,
            None => {
                proof {
                    assert(false);
                }
                0
            },
        };
        let n = i64_to_string(off as i64);
        concat3("[rbp - ", n.as_str(), "]")
    }
}

// ------------------------------------------------------------------------------------------
// Text of instructions
// ------------------------------------------------------------------------------------------

/// `s` as a line.
pub open spec fn line(s: Seq<char>) -> Seq<char> {
    s + "\n"@
}

/// The memory operand of the slot of `name`.
pub open spec fn addr_text(f: FrameV, name: Seq<char>) -> Seq<char> {
    "[rbp - "@ + dec_int(f.slots[name]) + "]"@
}

/// The names of the temporaries and variables an operand uses.
pub open spec fn value_names(v: ValueV) -> Seq<Seq<char>> {
    match v {
        ValueV::Temp(t) => seq![t],
        ValueV::Var(t) => seq![t],
        _ => Seq::empty(),
    }
}

/// Whether an operand can be written: not a string, a character, a floating-point
/// constant or `nil`, and its slot, if it needs one, exists.
pub open spec fn lowerable(f: FrameV, v: ValueV) -> bool {
    match v {
        ValueV::Str(_) => false,
        ValueV::Char(_) => false,
        ValueV::Double(_) => false,
        ValueV::Float(_) => false,
        ValueV::Nil => false,
        ValueV::Temp(t) => f.slots.contains_key(t),
        ValueV::Var(t) => f.slots.contains_key(t),
        _ => true,
    }
}

/// How an operand is written.
pub open spec fn lower_text(f: FrameV, v: ValueV) -> Seq<char> {
    match v {
        ValueV::Const(i) => dec_int(i as int),
        ValueV::Bool(b) => if b {
            "1"@
        } else {
            "0"@
        },
        ValueV::Temp(t) => addr_text(f, t),
        ValueV::Var(t) => addr_text(f, t),
        _ => "0"@,
    }
}

/// The names an instruction needs slots for, in the order they get them.
pub open spec fn inst_names(i: InstructionV) -> Seq<Seq<char>> {
    match i {
        InstructionV::Assign { dst, src } => seq![dst] + value_names(src),
        InstructionV::Binary { dst, lhs, rhs, .. } => seq![dst] + value_names(lhs) + value_names(rhs),
        InstructionV::Unary { dst, value, .. } => seq![dst] + value_names(value),
        InstructionV::Arg { value } => value_names(value),
        InstructionV::Return { value } => value_names(value),
        InstructionV::Call { dest, .. } => match dest {
            Some(d) => seq![d],
            None => Seq::empty(),
        },
        InstructionV::Param { p } => seq![p],
        _ => Seq::empty(),
    }
}

/// The names the instructions of `g` need slots for, in order.
pub open spec fn names_of(g: Seq<InstructionV>) -> Seq<Seq<char>>
    decreases g.len(),
{
    if g.len() == 0 {
        Seq::empty()
    } else {
        names_of(g.drop_last()) + inst_names(g.last())
    }
}

/// The frame of a function: a slot for each name it uses, then the size.
pub open spec fn frame_of(g: Seq<InstructionV>) -> FrameV {
    let f = alloc_all(empty_frame(), names_of(g));
    FrameV { size: round16(f.next), ..f }
}

/// Whether the instruction `i` can be written with the frame `f`: every slot it reads or
/// writes exists, and it writes no string or character operand.
pub open spec fn inst_ok(f: FrameV, i: InstructionV) -> bool {
    match i {
        InstructionV::Assign { dst, src } => f.slots.contains_key(dst) && lowerable(f, src),
        InstructionV::Binary { dst, lhs, rhs, .. } => f.slots.contains_key(dst) && lowerable(f, lhs)
            && lowerable(f, rhs),
        InstructionV::Unary { dst, value, .. } => f.slots.contains_key(dst) && lowerable(f, value),
        InstructionV::JumpIfFalse { cond, .. } => lowerable(f, cond),
        InstructionV::Return { value } => lowerable(f, value),
        InstructionV::Arg { value } => lowerable(f, value),
        InstructionV::Call { dest, .. } => match dest {
            Some(d) => f.slots.contains_key(d),
            None => true,
        },
        InstructionV::Param { p } => f.slots.contains_key(p),
        _ => true,
    }
}

/// The lines that compute `rax op rbx` into `rax` (or into `al` for a comparison).
pub open spec fn op_text(op: IrOp) -> Seq<char> {
    match op {
        IrOp::Add => line("add rax, rbx"@),
        IrOp::Sub => line("sub rax, rbx"@),
        IrOp::Mul => line("imul rax, rbx"@),
        IrOp::Div => line("cqo"@) + line("idiv rbx"@),
        IrOp::Eq => line("cmp rax, rbx"@) + line("sete al"@) + line("movzx rax, al"@),
        IrOp::NEq => line("cmp rax, rbx"@) + line("setne al"@) + line("movzx rax, al"@),
        IrOp::Gt => line("cmp rax, rbx"@) + line("setg al"@) + line("movzx rax, al"@),
        IrOp::GtE => line("cmp rax, rbx"@) + line("setge al"@) + line("movzx rax, al"@),
        IrOp::Lt => line("cmp rax, rbx"@) + line("setl al"@) + line("movzx rax, al"@),
        IrOp::LtE => line("cmp rax, rbx"@) + line("setle al"@) + line("movzx rax, al"@),
        _ => Seq::empty(),
    }
}

/// What the line `s`, an x86 `set` of `al` on a condition, leaves in `al` after
/// `cmp rax, rbx` with the signed values `a` in `rax` and `b` in `rbx`: `e` equal, `ne`
/// not equal, `g` greater, `ge` greater or equal, `l` less, `le` less or equal.
pub open spec fn set_after_compare(s: Seq<char>, a: int, b: int) -> Option<bool> {
    if s == "sete al"@ {
        Some(a == b)
    } else if s == "setne al"@ {
        Some(a != b)
    } else if s == "setg al"@ {
        Some(a > b)
    } else if s == "setge al"@ {
        Some(a >= b)
    } else if s == "setl al"@ {
        Some(a < b)
    } else if s == "setle al"@ {
        Some(a <= b)
    } else {
        None
    }
}

/// The assembly of a comparison computes what folding that comparison gives: for each of
/// the six comparisons and all signed 64-bit `a` and `b`, it is `cmp rax, rbx`, a `set`
/// of `al`, and `movzx rax, al`, where the `set` leaves 1 exactly when the comparison of
/// `a` with `b` folds to true.
pub proof fn law_comparison_assembly_computes_the_comparison(op: BinaryOp, a: i64, b: i64)
    requires
        op is Eq || op is NEq || op is Gt || op is GtE || op is Lt || op is LtE,
    ensures
        exists|s: Seq<char>|
            #![trigger set_after_compare(s, a as int, b as int)]
            op_text(binary_ir_op(op)) == line("cmp rax, rbx"@) + line(s) + line("movzx rax, al"@) && (set_after_compare(
                s,
                a as int,
                b as int,
            ) matches Some(x) && fold_v(op, ConstValV::Int(a), ConstValV::Int(b)) == Some(ConstValV::Bool(x))),
{
    reveal_strlit("sete al");
    reveal_strlit("setne al");
    reveal_strlit("setg al");
    reveal_strlit("setge al");
    reveal_strlit("setl al");
    reveal_strlit("setle al");
    let s = match op {
        BinaryOp::Eq => "sete al"@,
        BinaryOp::NEq => "setne al"@,
        BinaryOp::Gt => "setg al"@,
        BinaryOp::GtE => "setge al"@,
        BinaryOp::Lt => "setl al"@,
        _ => "setle al"@,
    };
    assert("sete al"@[3] == 'e' && "setne al"@[3] == 'n' && "setg al"@[3] == 'g' && "setge al"@[3] == 'g'
        && "setl al"@[3] == 'l' && "setle al"@[3] == 'l');
    assert("setg al"@[4] == ' ' && "setge al"@[4] == 'e' && "setl al"@[4] == ' ' && "setle al"@[4] == 'e');
    assert(set_after_compare(s, a as int, b as int) is Some);
}

/// What the x86 line `s` leaves in `rax` from the signed values `a` in `rax` and `b` in
/// `rbx`, for the arithmetic instructions `add`, `sub` and `imul`, where the exact result
/// fits in 64 bits.
pub open spec fn arith_after(s: Seq<char>, a: int, b: int) -> Option<int> {
    if s == "add rax, rbx"@ {
        Some(a + b)
    } else if s == "sub rax, rbx"@ {
        Some(a - b)
    } else if s == "imul rax, rbx"@ {
        Some(a * b)
    } else {
        None
    }
}

/// The assembly of `+`, `-` and `*` computes what folding them gives: for all signed
/// 64-bit `a` and `b` whose exact result fits in 64 bits, it is one instruction that
/// leaves in `rax` the value that folding the operation gives.
pub proof fn law_arithmetic_assembly_computes_the_arithmetic(op: BinaryOp, a: i64, b: i64)
    requires
        op is Add || op is Sub || op is Mul,
    ensures
        exists|s: Seq<char>|
            #![trigger arith_after(s, a as int, b as int)]
            op_text(binary_ir_op(op)) == line(s) && (arith_after(s, a as int, b as int) matches Some(r) && (
            i64::MIN <= r <= i64::MAX ==> fold_v(op, ConstValV::Int(a), ConstValV::Int(b)) == Some(
                ConstValV::Int(r as i64),
            ))),
{
    reveal_strlit("add rax, rbx");
    reveal_strlit("sub rax, rbx");
    reveal_strlit("imul rax, rbx");
    assert("add rax, rbx"@[0] == 'a' && "sub rax, rbx"@[0] == 's' && "imul rax, rbx"@[0] == 'i');
    let s = match op {
        BinaryOp::Add => "add rax, rbx"@,
        BinaryOp::Sub => "sub rax, rbx"@,
        _ => "imul rax, rbx"@,
    };
    assert(arith_after(s, a as int, b as int) is Some);
}

/// The prologue of a function with frame `f`.
pub open spec fn prologue_text(f: FrameV) -> Seq<char> {
    line("push rbp"@) + line("mov rbp, rsp"@) + if f.size > 0 {
        line("sub rsp, "@ + dec_int(f.size))
    } else {
        Seq::empty()
    }
}

/// The counters of a function under way: arguments pushed for the next call, and
/// parameters received.
pub type CallCtx = (int, int);

/// The text of instruction `i` with frame `f` and counters `c`, and the counters after it.
pub open spec fn inst_text(f: FrameV, c: CallCtx, i: InstructionV) -> (Seq<char>, CallCtx) {
    match i {
        InstructionV::FunctionLabel(name) => (
            line("global "@ + name) + line(name + ":"@) + prologue_text(f),
            c,
        ),
        InstructionV::Label(l) => (line(l + ":"@), c),
        InstructionV::Assign { dst, src } => (
            line("mov qword "@ + addr_text(f, dst) + ", "@ + lower_text(f, src)),
            c,
        ),
        InstructionV::Binary { dst, op, lhs, rhs } => (
            line("mov rax, "@ + lower_text(f, lhs)) + line("mov rbx, "@ + lower_text(f, rhs))
                + op_text(op) + line("mov "@ + addr_text(f, dst) + ", rax"@),
            c,
        ),
        InstructionV::Unary { dst, op, value } => (
            line("mov rax, "@ + lower_text(f, value)) + (if op == IrOp::Neg {
                line("neg rax"@)
            } else {
                Seq::empty()
            }) + line("mov "@ + addr_text(f, dst) + ", rax"@),
            c,
        ),
        InstructionV::Jump(l) => (line("jmp "@ + l), c),
        InstructionV::JumpIfFalse { cond, target } => (
            line("cmp qword "@ + lower_text(f, cond) + ", 0"@) + line("je "@ + target),
            c,
        ),
        InstructionV::Return { value } => (
            line("mov rax, "@ + lower_text(f, value)) + line("mov rsp, rbp"@) + line("pop rbp"@)
                + line("ret"@),
            c,
        ),
        InstructionV::Extern { fnname } => (line("extern "@ + fnname), c),
        InstructionV::Arg { value } => (
            match sysv_arg_reg(c.0) {
                Some(r) => line("mov "@ + r + ", "@ + lower_text(f, value)),
                None => line("push "@ + lower_text(f, value)),
            },
            (c.0 + 1, c.1),
        ),
        InstructionV::Call { dest, name, .. } => (
            line("call "@ + name) + match dest {
                Some(d) => line("mov qword "@ + addr_text(f, d) + ", rax"@),
                None => Seq::empty(),
            },
            (0, c.1),
        ),
        InstructionV::Param { p } => (
            match sysv_arg_reg(c.1) {
                Some(r) => line("mov "@ + addr_text(f, p) + ", "@ + r),
                None => Seq::empty(),
            },
            (c.0, c.1 + 1),
        ),
        _ => (Seq::empty(), c),
    }
}


/// The text of the instructions of `g` with frame `f`, from counters `c`, and the
/// counters after them.
pub open spec fn insts_text(f: FrameV, c: CallCtx, g: Seq<InstructionV>) -> (Seq<char>, CallCtx)
    decreases g.len(),
{
    if g.len() == 0 {
        (Seq::empty(), c)
    } else {
        let (t, c1) = insts_text(f, c, g.drop_last());
        let (t2, c2) = inst_text(f, c1, g.last());
        (t + t2, c2)
    }
}

/// The text of a function: its instructions, with its own frame, from zero counters.
pub open spec fn function_text(g: Seq<InstructionV>) -> Seq<char> {
    insts_text(frame_of(g), (0, 0), g).0
}

/// The text of the functions of `gs`, one after the other.
pub open spec fn functions_text(gs: Seq<Seq<InstructionV>>) -> Seq<char>
    decreases gs.len(),
{
    if gs.len() == 0 {
        Seq::empty()
    } else {
        functions_text(gs.drop_last()) + function_text(gs.last())
    }
}

/// The assembly text of a program.
pub open spec fn program_text(p: Seq<InstructionV>) -> Seq<char> {
    line("section .text"@) + functions_text(split(p))
}

/// Whether a function can be written: its slots fit the frame's offsets, and each of
/// its instructions can be written with its frame.
pub open spec fn function_ok(g: Seq<InstructionV>) -> bool {
    &&& 8 * names_of(g).len() + 8 + 15 <= i32::MAX
    &&& forall|j: int| 0 <= j < g.len() ==> inst_ok(frame_of(g), #[trigger] g[j])
}

/// Whether a program can be written: each of its functions can.
pub open spec fn program_ok(p: Seq<InstructionV>) -> bool {
    forall|k: int| 0 <= k < split(p).len() ==> function_ok(#[trigger] split(p)[k])
}

// ------------------------------------------------------------------------------------------
// The backend
// ------------------------------------------------------------------------------------------

/// The counters of the function under way.
#[derive(Debug)]
pub struct FunctionCtx {
    arg_index: usize,
    param_index: usize,
}

/// Writes NASM assembly for x86-64.
#[derive(Debug)]
pub struct NasmBackend {
    pub target: Target,
    pub out: String,
    frame: StackFrame,
    ctx: FunctionCtx,
}

impl NasmBackend {
    /// The frame of the function under way.
    pub closed spec fn frame_view(&self) -> FrameV {
        self.frame.view()
    }

    /// The counters of the function under way.
    pub closed spec fn ctx_view(&self) -> CallCtx {
        (self.ctx.arg_index as int, self.ctx.param_index as int)
    }

    /// The frame is well formed.
    pub closed spec fn wf(&self) -> bool {
        self.frame.wf()
    }

    /// Appends `s` as a line.
    fn emit(&mut self, s: &str)
        ensures
            final(self).out@ == old(self).out@ + line(s@),
            final(self).frame == old(self).frame,
            final(self).ctx == old(self).ctx,
            final(self).target == old(self).target,
    {
        self.out.append(s);
        self.out.append("\n");
        proof {
            reveal_strlit("\n");
        }
    }

    /// Starts a new function: no slot, zero counters.
    fn reset(&mut self)
        ensures
            final(self).wf(),
            final(self).frame_view() == empty_frame(),
            final(self).ctx_view() == (0int, 0int),
            final(self).out == old(self).out,
            final(self).target == old(self).target,
    {
        self.frame = StackFrame::new();
        self.ctx = FunctionCtx { arg_index: 0, param_index: 0 };
    }

    /// How an operand is written.
    fn lower_value(&self, v: &Value) -> (res: String)
        requires
            self.wf(),
            lowerable(self.frame_view(), v.view()),
        ensures
            res@ == lower_text(self.frame_view(), v.view()),
    {
        proof {
            reveal_strlit("1");
            reveal_strlit("0");
        }
        match v {
            Value::Const(i) => i64_to_string(*i),
            Value::Bool(b) => if *b {
                String::from_str("1")
            } else {
                String::from_str("0")
            },
            Value::Void => String::from_str("0"),
            Value::Temp(t) => self.frame.addr(t.as_str()),
            Value::Var(t) => self.frame.addr(t.as_str()),
            Value::Str(_) => {
                proof {
                    assert(false);
                }
                String::new()
            },
            Value::Char(_) | Value::Double(_) | Value::Float(_) | Value::Nil => {
                proof {
                    assert(false);
                }
                String::new()
            },
        }
    }

    /// Gives the temporary or variable of an operand a slot.
    fn collect_value(&mut self, v: &Value)
        requires
            old(self).wf(),
            old(self).frame_view().next + 8 * value_names(v.view()).len() + 15 <= i32::MAX,
        ensures
            final(self).wf(),
            final(self).frame_view() == alloc_all(old(self).frame_view(), value_names(v.view())),
            final(self).ctx == old(self).ctx,
            final(self).out == old(self).out,
            final(self).target == old(self).target,
    {
        match v {
            Value::Temp(t) => {
                let ghost before = self.frame_view();
                self.frame.allocate(t.as_str());
                proof {
                    lemma_alloc_all_one(before, t@);
                }
            },
            Value::Var(t) => {
                let ghost before = self.frame_view();
                self.frame.allocate(t.as_str());
                proof {
                    lemma_alloc_all_one(before, t@);
                }
            },
            _ => {
                assert(value_names(v.view()) =~= Seq::<Seq<char>>::empty());
            },
        }
    }

    /// Gives a slot to each name the instructions of `program` use.
    fn collect_stack_slots(&mut self, program: &[Instruction])
        requires
            old(self).wf(),
            old(self).frame_view().next + 8 * names_of(instrs_view(program@)).len() + 15 <= i32::MAX,
        ensures
            final(self).wf(),
            final(self).frame_view() == alloc_all(old(self).frame_view(), names_of(instrs_view(program@))),
            final(self).ctx == old(self).ctx,
            final(self).out == old(self).out,
            final(self).target == old(self).target,
    {
        let ghost pv = instrs_view(program@);
        let ghost f0 = self.frame_view();
        let mut i: usize = 0;
        while i < program.len()
            invariant
                0 <= i <= program@.len(),
                pv == instrs_view(program@),
                self.wf(),
                f0 == old(self).frame_view(),
                f0.next + 8 * names_of(pv).len() + 15 <= i32::MAX,
                self.frame_view() == alloc_all(f0, names_of(pv.take(i as int))),
                self.ctx == old(self).ctx,
                self.out == old(self).out,
                self.target == old(self).target,
            decreases program.len() - i,
        {
            let ghost before = self.frame_view();
            let ghost names_before = names_of(pv.take(i as int));
            let ghost here = inst_names(pv[i as int]);
            proof {
                assert(pv.take(i + 1).drop_last() =~= pv.take(i as int));
                assert(names_of(pv.take(i + 1)) == names_before + here);
                lemma_names_prefix(pv, i + 1);
                lemma_alloc_all_bound(f0, names_before);
                lemma_alloc_all_concat(f0, names_before, here);
            }
            match &program[i] {
                Instruction::Assign { dst, src } => {
                    self.frame.allocate(dst.as_str());
                    proof { lemma_alloc_all_one(before, dst@); }
                    self.collect_value(src);
                    proof { lemma_alloc_all_concat(before, seq![dst@], value_names(src.view())); }
                },
                Instruction::Binary { dst, lhs, rhs, .. } => {
                    self.frame.allocate(dst.as_str());
                    proof { lemma_alloc_all_one(before, dst@); }
                    let ghost mid = self.frame_view();
                    self.collect_value(lhs);
                    proof {
                        lemma_alloc_all_concat(before, seq![dst@], value_names(lhs.view()));
                        lemma_alloc_all_bound(mid, value_names(lhs.view()));
                    }
                    self.collect_value(rhs);
                    proof {
                        lemma_alloc_all_concat(before, seq![dst@] + value_names(lhs.view()), value_names(rhs.view()));
                    }
                },
                Instruction::Unary { dst, value, .. } => {
                    self.frame.allocate(dst.as_str());
                    proof { lemma_alloc_all_one(before, dst@); }
                    self.collect_value(value);
                    proof { lemma_alloc_all_concat(before, seq![dst@], value_names(value.view())); }
                },
                Instruction::Arg { value } => {
                    self.collect_value(value);
                },
                Instruction::Return { value } => {
                    self.collect_value(value);
                },
                Instruction::Call { dest, .. } => {
                    if let Some(d) = dest {
                        self.frame.allocate(d.as_str());
                        proof { lemma_alloc_all_one(before, d@); }
                    } else {
                        assert(here =~= Seq::<Seq<char>>::empty());
                    }
                },
                Instruction::Param { p } => {
                    self.frame.allocate(p.as_str());
                    proof { lemma_alloc_all_one(before, p@); }
                },
                _ => {
                    assert(here =~= Seq::<Seq<char>>::empty());
                },
            }
            i = i + 1;
        }
        assert(pv.take(program.len() as int) =~= pv);
    }

    /// Writes the prologue of a function: save `rbp`, set it, make room for the frame.
    fn emit_prologue(&mut self)
        requires
            old(self).wf(),
        ensures
            final(self).out@ == old(self).out@ + prologue_text(old(self).frame_view()),
            final(self).frame == old(self).frame,
            final(self).ctx == old(self).ctx,
            final(self).target == old(self).target,
    {
        self.emit("push rbp");
        self.emit("mov rbp, rsp");
        if self.frame.size > 0 {
            let n = i64_to_string(self.frame.size as i64);
            let l = concat("sub rsp, ", n.as_str());
            self.emit(l.as_str());
        }
    }

    /// Appends `a` followed by `b` as a line.
    fn emit2(&mut self, a: &str, b: &str)
        ensures
            final(self).out@ == old(self).out@ + line(a@ + b@),
            final(self).frame == old(self).frame,
            final(self).ctx == old(self).ctx,
            final(self).target == old(self).target,
    {
        let l = concat(a, b);
        self.emit(l.as_str());
    }

    /// Appends `a`, `b` and `c` as a line.
    fn emit3(&mut self, a: &str, b: &str, c: &str)
        ensures
            final(self).out@ == old(self).out@ + line(a@ + b@ + c@),
            final(self).frame == old(self).frame,
            final(self).ctx == old(self).ctx,
            final(self).target == old(self).target,
    {
        let l = concat3(a, b, c);
        self.emit(l.as_str());
    }

    /// Writes the lines that compute `rax op rbx`.
    fn emit_op(&mut self, op: IrOp)
        ensures
            final(self).out@ == old(self).out@ + op_text(op),
            final(self).frame == old(self).frame,
            final(self).ctx == old(self).ctx,
            final(self).target == old(self).target,
    {
        let ghost o = self.out@;
        match op {
            IrOp::Add => self.emit("add rax, rbx"),
            IrOp::Sub => self.emit("sub rax, rbx"),
            IrOp::Mul => self.emit("imul rax, rbx"),
            IrOp::Div => {
                self.emit("cqo");
                self.emit("idiv rbx");
            },
            IrOp::Eq => {
                self.emit("cmp rax, rbx");
                self.emit("sete al");
                self.emit("movzx rax, al");
            },
            IrOp::NEq => {
                self.emit("cmp rax, rbx");
                self.emit("setne al");
                self.emit("movzx rax, al");
            },
            IrOp::Gt => {
                self.emit("cmp rax, rbx");
                self.emit("setg al");
                self.emit("movzx rax, al");
            },
            IrOp::GtE => {
                self.emit("cmp rax, rbx");
                self.emit("setge al");
                self.emit("movzx rax, al");
            },
            IrOp::Lt => {
                self.emit("cmp rax, rbx");
                self.emit("setl al");
                self.emit("movzx rax, al");
            },
            IrOp::LtE => {
                self.emit("cmp rax, rbx");
                self.emit("setle al");
                self.emit("movzx rax, al");
            },
            _ => {},
        }
        assert(self.out@ =~= o + op_text(op));
    }

    /// Writes a function label: its symbol, made global, and the prologue.
    fn emit_function_label(&mut self, name: &String)
        requires
            old(self).wf(),
        ensures
            final(self).wf(),
            final(self).frame == old(self).frame,
            final(self).ctx == old(self).ctx,
            final(self).target == old(self).target,
            final(self).out@ == old(self).out@ + inst_text(
                old(self).frame_view(),
                old(self).ctx_view(),
                InstructionV::FunctionLabel(name@),
            ).0,
    {
        let ghost o = self.out@;
        self.emit2("global ", name.as_str());
        self.emit2(name.as_str(), ":");
        self.emit_prologue();
        assert(self.out@ =~= o + (line("global "@ + name@) + line(name@ + ":"@) + prologue_text(
            self.frame_view(),
        )));
    }

    /// Writes `dst = src`.
    fn emit_assign(&mut self, dst: &String, src: &Value)
        requires
            old(self).wf(),
            inst_ok(old(self).frame_view(), InstructionV::Assign { dst: dst@, src: src.view() }),
        ensures
            final(self).wf(),
            final(self).frame == old(self).frame,
            final(self).ctx == old(self).ctx,
            final(self).target == old(self).target,
            final(self).out@ == old(self).out@ + inst_text(
                old(self).frame_view(),
                old(self).ctx_view(),
                InstructionV::Assign { dst: dst@, src: src.view() },
            ).0,
    {
        let d = self.frame.addr(dst.as_str());
        let v = self.lower_value(src);
        let l = concat3("mov qword ", d.as_str(), ", ");
        self.emit2(l.as_str(), v.as_str());
    }

    /// Writes `dst = lhs op rhs` through `rax` and `rbx`.
    fn emit_binary(&mut self, dst: &String, op: IrOp, lhs: &Value, rhs: &Value)
        requires
            old(self).wf(),
            inst_ok(
                old(self).frame_view(),
                InstructionV::Binary { dst: dst@, op, lhs: lhs.view(), rhs: rhs.view() },
            ),
        ensures
            final(self).wf(),
            final(self).frame == old(self).frame,
            final(self).ctx == old(self).ctx,
            final(self).target == old(self).target,
            final(self).out@ == old(self).out@ + inst_text(
                old(self).frame_view(),
                old(self).ctx_view(),
                InstructionV::Binary { dst: dst@, op, lhs: lhs.view(), rhs: rhs.view() },
            ).0,
    {
        let ghost o = self.out@;
        let ghost f = self.frame_view();
        let d = self.frame.addr(dst.as_str());
        let a = self.lower_value(lhs);
        self.emit2("mov rax, ", a.as_str());
        let b = self.lower_value(rhs);
        self.emit2("mov rbx, ", b.as_str());
        self.emit_op(op);
        self.emit3("mov ", d.as_str(), ", rax");
        assert(self.out@ =~= o + (line("mov rax, "@ + lower_text(f, lhs.view())) + line(
            "mov rbx, "@ + lower_text(f, rhs.view()),
        ) + op_text(op) + line("mov "@ + addr_text(f, dst@) + ", rax"@)));
    }

    /// Writes `dst = op value` through `rax`.
    fn emit_unary(&mut self, dst: &String, op: IrOp, value: &Value)
        requires
            old(self).wf(),
            inst_ok(old(self).frame_view(), InstructionV::Unary { dst: dst@, op, value: value.view() }),
        ensures
            final(self).wf(),
            final(self).frame == old(self).frame,
            final(self).ctx == old(self).ctx,
            final(self).target == old(self).target,
            final(self).out@ == old(self).out@ + inst_text(
                old(self).frame_view(),
                old(self).ctx_view(),
                InstructionV::Unary { dst: dst@, op, value: value.view() },
            ).0,
    {
        let ghost o = self.out@;
        let ghost f = self.frame_view();
        let d = self.frame.addr(dst.as_str());
        let a = self.lower_value(value);
        self.emit2("mov rax, ", a.as_str());
        let ghost mid = self.out@;
        let ghost neg = if op == IrOp::Neg {
            line("neg rax"@)
        } else {
            Seq::<char>::empty()
        };
        match op {
            IrOp::Neg => self.emit("neg rax"),
            _ => {
                assert(self.out@ =~= mid + neg);
            },
        }
        self.emit3("mov ", d.as_str(), ", rax");
        assert(self.out@ =~= o + (line("mov rax, "@ + lower_text(f, value.view())) + neg + line(
            "mov "@ + addr_text(f, dst@) + ", rax"@,
        )));
    }

    /// Writes a jump to `target` taken when `cond` is zero.
    fn emit_jump_if_false(&mut self, cond: &Value, target: &String)
        requires
            old(self).wf(),
            inst_ok(old(self).frame_view(), InstructionV::JumpIfFalse { cond: cond.view(), target: target@ }),
        ensures
            final(self).wf(),
            final(self).frame == old(self).frame,
            final(self).ctx == old(self).ctx,
            final(self).target == old(self).target,
            final(self).out@ == old(self).out@ + inst_text(
                old(self).frame_view(),
                old(self).ctx_view(),
                InstructionV::JumpIfFalse { cond: cond.view(), target: target@ },
            ).0,
    {
        let ghost o = self.out@;
        let ghost f = self.frame_view();
        let v = self.lower_value(cond);
        self.emit3("cmp qword ", v.as_str(), ", 0");
        self.emit2("je ", target.as_str());
        assert(self.out@ =~= o + (line("cmp qword "@ + lower_text(f, cond.view()) + ", 0"@) + line(
            "je "@ + target@,
        )));
    }

    /// Writes a return of `value`: result in `rax`, frame dropped.
    fn emit_return(&mut self, value: &Value)
        requires
            old(self).wf(),
            inst_ok(old(self).frame_view(), InstructionV::Return { value: value.view() }),
        ensures
            final(self).wf(),
            final(self).frame == old(self).frame,
            final(self).ctx == old(self).ctx,
            final(self).target == old(self).target,
            final(self).out@ == old(self).out@ + inst_text(
                old(self).frame_view(),
                old(self).ctx_view(),
                InstructionV::Return { value: value.view() },
            ).0,
    {
        let ghost o = self.out@;
        let ghost f = self.frame_view();
        let v = self.lower_value(value);
        self.emit2("mov rax, ", v.as_str());
        self.emit("mov rsp, rbp");
        self.emit("pop rbp");
        self.emit("ret");
        assert(self.out@ =~= o + (line("mov rax, "@ + lower_text(f, value.view())) + line(
            "mov rsp, rbp"@,
        ) + line("pop rbp"@) + line("ret"@)));
    }

    /// Passes the next argument of a call: in its register, or on the stack.
    fn emit_arg(&mut self, value: &Value)
        requires
            old(self).wf(),
            inst_ok(old(self).frame_view(), InstructionV::Arg { value: value.view() }),
            old(self).ctx_view().0 < usize::MAX,
        ensures
            final(self).wf(),
            final(self).frame == old(self).frame,
            final(self).target == old(self).target,
            final(self).out@ == old(self).out@ + inst_text(
                old(self).frame_view(),
                old(self).ctx_view(),
                InstructionV::Arg { value: value.view() },
            ).0,
            final(self).ctx_view() == inst_text(
                old(self).frame_view(),
                old(self).ctx_view(),
                InstructionV::Arg { value: value.view() },
            ).1,
    {
        let v = self.lower_value(value);
        match self.target.arg_reg(self.ctx.arg_index) {
            Some(reg) => {
                let l = concat3("mov ", reg, ", ");
                self.emit2(l.as_str(), v.as_str());
            },
            None => {
                self.emit2("push ", v.as_str());
            },
        }
        self.ctx.arg_index = self.ctx.arg_index + 1;
    }

    /// Writes a call, and stores its result where it goes.
    fn emit_call(&mut self, dest: &Option<String>, name: &String, argc: usize)
        requires
            old(self).wf(),
            inst_ok(
                old(self).frame_view(),
                InstructionV::Call {
                    dest: match dest {
                        Some(d) => Some(d@),
                        None => None,
                    },
                    name: name@,
                    argc,
                },
            ),
        ensures
            final(self).wf(),
            final(self).frame == old(self).frame,
            final(self).target == old(self).target,
            final(self).out@ == old(self).out@ + inst_text(
                old(self).frame_view(),
                old(self).ctx_view(),
                InstructionV::Call {
                    dest: match dest {
                        Some(d) => Some(d@),
                        None => None,
                    },
                    name: name@,
                    argc,
                },
            ).0,
            final(self).ctx_view() == inst_text(
                old(self).frame_view(),
                old(self).ctx_view(),
                InstructionV::Call {
                    dest: match dest {
                        Some(d) => Some(d@),
                        None => None,
                    },
                    name: name@,
                    argc,
                },
            ).1,
    {
        let ghost o = self.out@;
        let ghost f = self.frame_view();
        self.emit2("call ", name.as_str());
        self.ctx.arg_index = 0;
        match dest {
            Some(d) => {
                let a = self.frame.addr(d.as_str());
                self.emit3("mov qword ", a.as_str(), ", rax");
                assert(self.out@ =~= o + (line("call "@ + name@) + line(
                    "mov qword "@ + addr_text(f, d@) + ", rax"@,
                )));
            },
            None => {
                assert(self.out@ =~= o + (line("call "@ + name@) + Seq::<char>::empty()));
            },
        }
    }

    /// Moves the next parameter from its register into its slot.
    fn emit_param(&mut self, p: &String)
        requires
            old(self).wf(),
            inst_ok(old(self).frame_view(), InstructionV::Param { p: p@ }),
            old(self).ctx_view().1 < usize::MAX,
        ensures
            final(self).wf(),
            final(self).frame == old(self).frame,
            final(self).target == old(self).target,
            final(self).out@ == old(self).out@ + inst_text(
                old(self).frame_view(),
                old(self).ctx_view(),
                InstructionV::Param { p: p@ },
            ).0,
            final(self).ctx_view() == inst_text(
                old(self).frame_view(),
                old(self).ctx_view(),
                InstructionV::Param { p: p@ },
            ).1,
    {
        let ghost o = self.out@;
        let d = self.frame.addr(p.as_str());
        match self.target.arg_reg(self.ctx.param_index) {
            Some(reg) => {
                let l = concat3("mov ", d.as_str(), ", ");
                self.emit2(l.as_str(), reg);
            },
            None => {
                assert(self.out@ =~= o + Seq::<char>::empty());
            },
        }
        self.ctx.param_index = self.ctx.param_index + 1;
    }

    /// Writes one instruction with the frame and counters of the function under way.
    fn emit_instruction(&mut self, inst: &Instruction)
        requires
            old(self).wf(),
            inst_ok(old(self).frame_view(), inst.view()),
            old(self).ctx_view().0 < usize::MAX,
            old(self).ctx_view().1 < usize::MAX,
        ensures
            final(self).wf(),
            final(self).frame == old(self).frame,
            final(self).target == old(self).target,
            final(self).out@ == old(self).out@ + inst_text(
                old(self).frame_view(),
                old(self).ctx_view(),
                inst.view(),
            ).0,
            final(self).ctx_view() == inst_text(
                old(self).frame_view(),
                old(self).ctx_view(),
                inst.view(),
            ).1,
    {
        match inst {
            Instruction::FunctionLabel(name) => self.emit_function_label(name),
            Instruction::Label(l) => self.emit2(l.as_str(), ":"),
            Instruction::Assign { dst, src } => self.emit_assign(dst, src),
            Instruction::Binary { dst, op, lhs, rhs } => self.emit_binary(dst, *op, lhs, rhs),
            Instruction::Unary { dst, op, value } => self.emit_unary(dst, *op, value),
            Instruction::Jump(l) => self.emit2("jmp ", l.as_str()),
            Instruction::JumpIfFalse { cond, target } => self.emit_jump_if_false(cond, target),
            Instruction::Return { value } => self.emit_return(value),
            Instruction::Extern { fnname } => self.emit2("extern ", fnname.as_str()),
            Instruction::Arg { value } => self.emit_arg(value),
            Instruction::Call { dest, name, argc } => self.emit_call(dest, name, *argc),
            Instruction::Param { p } => self.emit_param(p),
            _ => {
                assert(self.out@ =~= old(self).out@ + Seq::<char>::empty());
            },
        }
    }
}

/// Giving slots to `a + b` is giving them to `a`, then to `b`.
pub proof fn lemma_alloc_all_concat(f: FrameV, a: Seq<Seq<char>>, b: Seq<Seq<char>>)
    ensures
        alloc_all(f, a + b) == alloc_all(alloc_all(f, a), b),
    decreases b.len(),
{
    if b.len() == 0 {
        assert(a + b =~= a);
    } else {
        assert((a + b).drop_last() =~= a + b.drop_last());
        lemma_alloc_all_concat(f, a, b.drop_last());
    }
}

/// Giving slots to one name is giving it a slot.
pub proof fn lemma_alloc_all_one(f: FrameV, n: Seq<char>)
    ensures
        alloc_all(f, seq![n]) == alloc_v(f, n),
{
    let s = seq![n];
    assert(s.drop_last() =~= Seq::<Seq<char>>::empty());
    assert(alloc_all(f, s.drop_last()) == f);
    assert(s.last() == n);
}

/// The names of a prefix of a function are no more than the names of the function.
pub proof fn lemma_names_prefix(g: Seq<InstructionV>, i: int)
    requires
        0 <= i <= g.len(),
    ensures
        names_of(g.take(i)).len() <= names_of(g).len(),
    decreases g.len(),
{
    if i < g.len() {
        assert(g.drop_last().take(i) =~= g.take(i));
        lemma_names_prefix(g.drop_last(), i);
    } else {
        assert(g.take(i) =~= g);
    }
}

impl Backend for NasmBackend {
    open spec fn can_emit(program: Seq<InstructionV>) -> bool {
        program_ok(program)
    }

    open spec fn emitted(program: Seq<InstructionV>) -> Seq<char> {
        program_text(program)
    }

    closed spec fn target_of(&self) -> Target {
        self.target
    }

    fn new(target: Target) -> (res: Self) {
        NasmBackend {
            target,
            out: String::new(),
            frame: StackFrame::new(),
            ctx: FunctionCtx { arg_index: 0, param_index: 0 },
        }
    }

    #[verifier::rlimit(100)]
    #[verifier::spinoff_prover]
    fn emit_program(&mut self, program: &[Instruction]) -> (res: String) {
        let ghost pv = instrs_view(program@);
        let ghost gs = split(pv);
        self.out = String::new();
        self.emit("section .text");
        let funcs = split_functions(program);
        let mut k: usize = 0;
        while k < funcs.len()
            invariant
                0 <= k <= funcs@.len(),
                funcs@.map_values(|f: Vec<Instruction>| instrs_view(f@)) == gs,
                gs == split(pv),
                program_ok(pv),
                self.out@ == line("section .text"@) + functions_text(gs.take(k as int)),
                self.target == old(self).target,
            decreases funcs.len() - k,
        {
            let ghost o = self.out@;
            let func = &funcs[k];
            let ghost fv = instrs_view(func@);
            assert(fv == gs[k as int]);
            assert(function_ok(fv));
            self.reset();
            proof {
                lemma_alloc_all_bound(empty_frame(), names_of(fv));
            }
            self.collect_stack_slots(func.as_slice());
            self.frame.finalize();
            assert(self.frame_view() == frame_of(fv));
            let mut j: usize = 0;
            while j < func.len()
                invariant
                    0 <= j <= fv.len(),
                    fv == instrs_view(func@),
                    function_ok(fv),
                    self.wf(),
                    self.frame_view() == frame_of(fv),
                    self.out@ == o + insts_text(frame_of(fv), (0, 0), fv.take(j as int)).0,
                    self.ctx_view() == insts_text(frame_of(fv), (0, 0), fv.take(j as int)).1,
                    self.ctx_view().0 <= j,
                    self.ctx_view().1 <= j,
                    self.target == old(self).target,
                decreases func.len() - j,
            {
                proof {
                    assert(fv.take(j + 1).drop_last() =~= fv.take(j as int));
                    assert(fv.take(j + 1).last() == fv[j as int]);
                    assert(inst_ok(frame_of(fv), fv[j as int]));
                }
                let ghost before = self.out@;
                self.emit_instruction(&func[j]);
                assert(self.out@ =~= o + insts_text(frame_of(fv), (0, 0), fv.take(j + 1)).0);
                j = j + 1;
            }
            assert(fv.take(fv.len() as int) =~= fv);
            assert(gs.take(k + 1).drop_last() =~= gs.take(k as int));
            assert(self.out@ =~= line("section .text"@) + functions_text(gs.take(k + 1)));
            k = k + 1;
        }
        assert(gs.take(gs.len() as int) =~= gs);
        self.out.clone()
    }
}

} // verus!
