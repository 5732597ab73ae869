//! Code generation targets, and the backend interface.
use crate::ir::tac::{instrs_view, Instruction, InstructionV};
use vstd::prelude::*;



pub mod nasm;

verus! {

/// A processor family.
#[derive(Clone, Copy, Debug, PartialEq, Eq, Structural)]
pub enum Arch {
    X86_64,
    AARCH,
}

/// An operating system (only Linux so far).
#[derive(Clone, Copy, Debug, PartialEq, Eq, Structural)]
pub enum OS {
    Linux,
}

/// A calling convention (only System V so far).
#[derive(Clone, Copy, Debug, PartialEq, Eq, Structural)]
pub enum ABI {
    SysV,
}

/// What code is generated for: a processor, an operating system, a calling convention.
#[derive(Clone, Copy, Debug, PartialEq, Eq, Structural)]
pub struct Target {
    pub arch: Arch,
    pub os: OS,
    pub abi: ABI,
}

/// The register that passes argument number `index` under the System V convention, if
/// one does (the first six do).
pub open spec fn sysv_arg_reg(index: int) -> Option<Seq<char>> {
    if index == 0 {
        Some("rdi"@)
    } else if index == 1 {
        Some("rsi"@)
    } else if index == 2 {
        Some("rdx"@)
    } else if index == 3 {
        Some("rcx"@)
    } else if index == 4 {
        Some("r8"@)
    } else if index == 5 {
        Some("r9"@)
    } else {
        None
    }
}

impl Target {
    /// Generic x86-64 Linux with the System V convention.
    pub fn linux_x86_64_generic() -> (res: Target)
        ensures
            res == (Target { arch: Arch::X86_64, os: OS::Linux, abi: ABI::SysV }),
    {
        Target { arch: Arch::X86_64, os: OS::Linux, abi: ABI::SysV }
    }

    /// The register that passes argument number `index`, if one does.
    pub fn arg_reg(&self, index: usize) -> (res: Option<&'static str>)
        ensures
            match res {
                Some(r) => sysv_arg_reg(index as int) == Some(r@),
                None => sysv_arg_reg(index as int) is None,
            },
    {
        match self.abi {
            ABI::SysV => match index {
                0 => Some("rdi"),
                1 => Some("rsi"),
                2 => Some("rdx"),
                3 => Some("rcx"),
                4 => Some("r8"),
                5 => Some("r9"),
                _ => None,
            },
        }
    }
}

/// A code generator: made for a target, it turns three-address code into assembly text.
pub trait Backend: Sized {
    /// Whether this backend can write `program`.
    spec fn can_emit(program: Seq<InstructionV>) -> bool;

    /// The text this backend writes for `program`.
    spec fn emitted(program: Seq<InstructionV>) -> Seq<char>;

    /// The target this backend was made for.
    spec fn target_of(&self) -> Target;

    /// A backend for `target`.
    fn new(target: Target) -> (res: Self)
        ensures
            res.target_of() == target,
    ;

    /// The assembly text of `program`.
    fn emit_program(&mut self, program: &[Instruction]) -> (res: String)
        requires
            Self::can_emit(instrs_view(program@)),
        ensures
            res@ == Self::emitted(instrs_view(program@)),
            final(self).target_of() == old(self).target_of(),
    ;
}

} // verus!
