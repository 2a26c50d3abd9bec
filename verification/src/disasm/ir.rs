//! Minimal semantic instruction IR for decompilation passes.
//!
//! Operands and a few key instruction classes are represented without relying
//! on disassembler-formatted operand strings.

use crate::text::{chars_of, eq_str, lower_chars, lower_seq};
use vstd::prelude::*;

verus! {

#[derive(Debug, Clone, PartialEq, Eq)]
pub struct InstructionIR {
    pub address: u64,
    pub op: String,
    pub operands: Vec<Operand>,
}

#[derive(Debug, Clone, PartialEq, Eq)]
pub enum Operand {
    Reg(String),
    Imm(i64),
    Mem(MemoryOperand),
    Other(String),
}

#[derive(Debug, Clone, PartialEq, Eq)]
pub struct MemoryOperand {
    pub base: Option<String>,
    pub index: Option<String>,
    pub scale: u8,
    pub disp: i64,
    pub size_bytes: Option<u32>,
}

pub open spec fn opt_str_v(s: Option<String>) -> Option<Seq<char>> {
    match s {
        Some(x) => Some(x@),
        None => None,
    }
}

pub struct MemoryOperandV {
    pub base: Option<Seq<char>>,
    pub index: Option<Seq<char>>,
    pub scale: u8,
    pub disp: i64,
    pub size_bytes: Option<u32>,
}

impl View for MemoryOperand {
    type V = MemoryOperandV;

    open spec fn view(&self) -> MemoryOperandV {
        MemoryOperandV {
            base: opt_str_v(self.base),
            index: opt_str_v(self.index),
            scale: self.scale,
            disp: self.disp,
            size_bytes: self.size_bytes,
        }
    }
}

pub enum OperandV {
    Reg(Seq<char>),
    Imm(i64),
    Mem(MemoryOperandV),
    Other(Seq<char>),
}

impl View for Operand {
    type V = OperandV;

    open spec fn view(&self) -> OperandV {
        match self {
            Operand::Reg(r) => OperandV::Reg(r@),
            Operand::Imm(v) => OperandV::Imm(*v),
            Operand::Mem(m) => OperandV::Mem(m@),
            Operand::Other(s) => OperandV::Other(s@),
        }
    }
}

pub struct InstructionIRV {
    pub address: u64,
    pub op: Seq<char>,
    pub operands: Seq<OperandV>,
}

impl View for InstructionIR {
    type V = InstructionIRV;

    open spec fn view(&self) -> InstructionIRV {
        InstructionIRV {
            address: self.address,
            op: self.op@,
            operands: self.operands@.map_values(|o: Operand| o@),
        }
    }
}

pub fn clone_opt_string(s: &Option<String>) -> (r: Option<String>)
    ensures
        opt_str_v(r) == opt_str_v(*s),
{
    match s {
        Some(x) => Some(x.clone()),
        None => None,
    }
}

impl MemoryOperand {
    pub fn copy(&self) -> (r: Self)
        ensures
            r@ == self@,
    {
        MemoryOperand {
            base: clone_opt_string(&self.base),
            index: clone_opt_string(&self.index),
            scale: self.scale,
            disp: self.disp,
            size_bytes: self.size_bytes,
        }
    }
}

impl Operand {
    pub fn copy(&self) -> (r: Self)
        ensures
            r@ == self@,
    {
        match self {
            Operand::Reg(r) => Operand::Reg(r.clone()),
            Operand::Imm(v) => Operand::Imm(*v),
            Operand::Mem(m) => Operand::Mem(m.copy()),
            Operand::Other(s) => Operand::Other(s.clone()),
        }
    }
}

impl InstructionIR {
    pub fn copy(&self) -> (r: Self)
        ensures
            r@ == self@,
    {
        let mut ops: Vec<Operand> = Vec::new();
        let mut i: usize = 0;
        while i < self.operands.len()
            invariant
                i <= self.operands@.len(),
                ops@.len() == i,
                forall|j: int| 0 <= j < i ==> (#[trigger] ops@[j])@ == self.operands@[j]@,
            decreases self.operands@.len() - i,
        {
            ops.push(self.operands[i].copy());
            i = i + 1;
        }
        proof {
            assert(ops@.map_values(|o: Operand| o@) =~= self.operands@.map_values(|o: Operand| o@));
        }
        InstructionIR { address: self.address, op: self.op.clone(), operands: ops }
    }
}

/// Whether a lower-cased register name is one of the frame/stack pointers.
pub open spec fn is_frame_register(lower: Seq<char>) -> bool {
    lower == "rbp"@ || lower == "ebp"@ || lower == "bp"@ || lower == "rsp"@ || lower == "esp"@
        || lower == "sp"@
}

impl MemoryOperand {
    /// Construct a frame-relative memory reference such as `[rbp-0x10]`.
    ///
    /// Kept narrow so callers don't accidentally pass `scale == 0` for
    /// absolute or RIP-relative memory references that should not have an index.
    pub fn frame(base: &str, disp: i64, size_bytes: Option<u32>) -> (r: Self)
        ensures
            r.base is Some && r.base.unwrap()@ == base@,
            r.index is None,
            r.scale == 1,
            r.disp == disp,
            r.size_bytes == size_bytes,
    {
        MemoryOperand {
            base: Some(String::from_str(base)),
            index: None,
            scale: 1,
            disp,
            size_bytes,
        }
    }

    /// Whether this memory operand looks like a stack-frame access (`rbp`/`rsp`
    /// base with no index register).
    pub fn is_stack_frame_ref(&self) -> (r: bool)
        ensures
            r == (self.index is None && self.base is Some && is_frame_register(
                lower_seq(self.base.unwrap()@),
            )),
    {
        if self.index.is_some() {
            return false;
        }
        match &self.base {
            Some(base) => {
                let lower = lower_chars(&chars_of(base.as_str()));
                eq_str(&lower, "rbp") || eq_str(&lower, "ebp") || eq_str(&lower, "bp") || eq_str(
                    &lower,
                    "rsp",
                ) || eq_str(&lower, "esp") || eq_str(&lower, "sp")
            },
            None => false,
        }
    }
}

} // verus!
