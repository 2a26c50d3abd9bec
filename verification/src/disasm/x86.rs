//! x86/x64 instructions and their classification.

use crate::disasm::ir::{InstructionIR, InstructionIRV, MemoryOperand, MemoryOperandV, Operand, OperandV};
use crate::utils::error::Error;
use iced_x86::{Decoder, DecoderOptions, Formatter, IntelFormatter};
use crate::text::{
    chars_of, dec_text, eq_str, extend_chars, is_ws_exec, lower_chars, lower_seq, push_dec,
    starts_with, starts_with_exec, string_of, trim_start, trim_start_exec,
};
use crate::decompiler::structure::first_ws_from;
use vstd::prelude::*;

verus! {

/// x86/x64 disassembler
pub struct X86Disassembler {
    bitness: u32,
}

impl X86Disassembler {
    pub closed spec fn spec_bitness(&self) -> u32 {
        self.bitness
    }

    /// Create a new x86 disassembler (32-bit)
    pub fn new_x86() -> (r: Self)
        ensures
            r.spec_bitness() == 32,
    {
        X86Disassembler { bitness: 32 }
    }

    /// Create a new x64 disassembler (64-bit)
    pub fn new_x64() -> (r: Self)
        ensures
            r.spec_bitness() == 64,
    {
        X86Disassembler { bitness: 64 }
    }
}

/// x86 instruction
#[derive(Debug, Clone)]
pub struct X86Instruction {
    pub address: u64,
    pub bytes: Vec<u8>,
    pub mnemonic: String,
    pub operands: String,
    pub length: usize,
    /// Minimal semantic representation of the instruction.
    pub ir: Option<InstructionIR>,
    /// Structured branch target for near jmp/jcc/call, if applicable.
    pub near_branch_target: Option<u64>,
}

pub struct X86InstructionV {
    pub address: u64,
    pub bytes: Seq<u8>,
    pub mnemonic: Seq<char>,
    pub operands: Seq<char>,
    pub length: usize,
    pub ir: Option<InstructionIRV>,
    pub near_branch_target: Option<u64>,
}

impl View for X86Instruction {
    type V = X86InstructionV;

    open spec fn view(&self) -> X86InstructionV {
        X86InstructionV {
            address: self.address,
            bytes: self.bytes@,
            mnemonic: self.mnemonic@,
            operands: self.operands@,
            length: self.length,
            ir: match self.ir {
                Some(ir) => Some(ir@),
                None => None,
            },
            near_branch_target: self.near_branch_target,
        }
    }
}

/// The mnemonics that end a straight-line run: any jump, call or return.
/// (The comparisons are ASCII-case-insensitive; full Unicode lower-casing
/// decides them identically, since no target word contains `k`.)
pub open spec fn is_return_mnemonic(m: Seq<char>) -> bool {
    let l = lower_seq(m);
    l == "ret"@ || l == "retn"@ || l == "retf"@ || l == "iret"@ || l == "iretd"@ || l == "iretq"@
}

pub open spec fn is_control_flow_mnemonic(m: Seq<char>) -> bool {
    let l = lower_seq(m);
    starts_with(l, "j"@) || l == "call"@ || is_return_mnemonic(m)
}

pub open spec fn is_conditional_jump_mnemonic(m: Seq<char>) -> bool {
    let l = lower_seq(m);
    starts_with(l, "j"@) && l != "jmp"@
}

pub open spec fn is_unconditional_jump_mnemonic(m: Seq<char>) -> bool {
    lower_seq(m) == "jmp"@
}

pub open spec fn is_call_mnemonic(m: Seq<char>) -> bool {
    lower_seq(m) == "call"@
}

/// Law: an instruction transfers control exactly when it is a conditional
/// jump, the unconditional `jmp`, a `call` or a return, and it is never two
/// of these at once.
pub proof fn lemma_control_flow_kinds(m: Seq<char>)
    ensures
        is_control_flow_mnemonic(m) <==> (is_conditional_jump_mnemonic(m)
            || is_unconditional_jump_mnemonic(m) || is_call_mnemonic(m) || is_return_mnemonic(m)),
        !(is_conditional_jump_mnemonic(m) && is_unconditional_jump_mnemonic(m)),
        !(is_conditional_jump_mnemonic(m) && is_call_mnemonic(m)),
        !(is_conditional_jump_mnemonic(m) && is_return_mnemonic(m)),
        !(is_unconditional_jump_mnemonic(m) && is_call_mnemonic(m)),
        !(is_unconditional_jump_mnemonic(m) && is_return_mnemonic(m)),
        !(is_call_mnemonic(m) && is_return_mnemonic(m)),
{
    reveal_strlit("j");
    reveal_strlit("jmp");
    reveal_strlit("call");
    reveal_strlit("ret");
    reveal_strlit("retn");
    reveal_strlit("retf");
    reveal_strlit("iret");
    reveal_strlit("iretd");
    reveal_strlit("iretq");
    let l = lower_seq(m);
    if l == "jmp"@ {
        assert(l.subrange(0, 1) =~= "j"@);
    }
    if starts_with(l, "j"@) {
        assert(l[0] == l.subrange(0, 1)[0]);
        assert(l[0] == 'j');
        assert(l != "call"@);
        assert(l != "ret"@ && l != "retn"@ && l != "retf"@);
        assert(l != "iret"@ && l != "iretd"@ && l != "iretq"@);
    }
    if l == "call"@ {
        assert(l[0] == 'c');
    }
}

pub fn is_return_text(lower: &[char]) -> (r: bool)
    ensures
        r == (lower@ == "ret"@ || lower@ == "retn"@ || lower@ == "retf"@ || lower@ == "iret"@
            || lower@ == "iretd"@ || lower@ == "iretq"@),
{
    eq_str(lower, "ret") || eq_str(lower, "retn") || eq_str(lower, "retf") || eq_str(lower, "iret")
        || eq_str(lower, "iretd") || eq_str(lower, "iretq")
}

/// The instruction as text: the mnemonic, then a space and the operands when
/// there are any.
pub open spec fn display_text(i: X86InstructionV) -> Seq<char> {
    if i.operands.len() == 0 {
        i.mnemonic
    } else {
        i.mnemonic + " "@ + i.operands
    }
}

impl X86Instruction {
    /// The instruction as `mnemonic operands` text.
    pub fn to_string(&self) -> (r: String)
        ensures
            r@ == display_text(self@),
    {
        if self.operands.unicode_len() == 0 {
            self.mnemonic.clone()
        } else {
            let mut v = chars_of(self.mnemonic.as_str());
            v.push(' ');
            extend_chars(&mut v, self.operands.as_str());
            proof {
                reveal_strlit(" ");
                assert(v@ =~= self.mnemonic@ + " "@ + self.operands@);
            }
            string_of(&v)
        }
    }

    pub fn copy(&self) -> (r: Self)
        ensures
            r@ == self@,
    {
        X86Instruction {
            address: self.address,
            bytes: self.bytes.clone(),
            mnemonic: self.mnemonic.clone(),
            operands: self.operands.clone(),
            length: self.length,
            ir: match &self.ir {
                Some(ir) => Some(ir.copy()),
                None => None,
            },
            near_branch_target: self.near_branch_target,
        }
    }

    /// Check if this is a control flow instruction
    pub fn is_control_flow(&self) -> (r: bool)
        ensures
            r == is_control_flow_mnemonic(self.mnemonic@),
    {
        let m = lower_chars(&chars_of(self.mnemonic.as_str()));
        starts_with_exec(&m, "j") || eq_str(&m, "call") || is_return_text(&m)
    }

    /// Check if this is a conditional jump
    pub fn is_conditional_jump(&self) -> (r: bool)
        ensures
            r == is_conditional_jump_mnemonic(self.mnemonic@),
    {
        let m = lower_chars(&chars_of(self.mnemonic.as_str()));
        starts_with_exec(&m, "j") && !eq_str(&m, "jmp")
    }

    /// Check if this is an unconditional jump
    pub fn is_unconditional_jump(&self) -> (r: bool)
        ensures
            r == is_unconditional_jump_mnemonic(self.mnemonic@),
    {
        let m = lower_chars(&chars_of(self.mnemonic.as_str()));
        eq_str(&m, "jmp")
    }

    /// Check if this is a call instruction
    pub fn is_call(&self) -> (r: bool)
        ensures
            r == is_call_mnemonic(self.mnemonic@),
    {
        let m = lower_chars(&chars_of(self.mnemonic.as_str()));
        eq_str(&m, "call")
    }

    /// Check if this is a return instruction
    pub fn is_return(&self) -> (r: bool)
        ensures
            r == is_return_mnemonic(self.mnemonic@),
    {
        let m = lower_chars(&chars_of(self.mnemonic.as_str()));
        is_return_text(&m)
    }
}

// ---------------------------------------------------------------------------
// Decoding with iced-x86
// ---------------------------------------------------------------------------

/// The widths, in bits, that the decoder accepts.
pub open spec fn valid_bitness(b: u32) -> bool {
    b == 16 || b == 32 || b == 64
}

/// The length of the instruction that iced-x86 decodes at the start of `code`.
pub uninterp spec fn iced_length(bitness: u32, code: Seq<u8>, ip: u64) -> usize;

/// The Intel-syntax text of that instruction.
pub uninterp spec fn iced_intel_text(bitness: u32, code: Seq<u8>, ip: u64) -> Seq<char>;

/// The name (`Debug`) of that instruction's mnemonic.
pub uninterp spec fn iced_mnemonic_name(bitness: u32, code: Seq<u8>, ip: u64) -> Seq<char>;

/// Whether it is a near jmp, short jmp, near jcc, short jcc or near call,
/// and its near branch target.
pub uninterp spec fn iced_near_branch(bitness: u32, code: Seq<u8>, ip: u64) -> (
    bool,
    bool,
    bool,
    bool,
    bool,
    u64,
);

/// Its number of operands.
pub uninterp spec fn iced_op_count(bitness: u32, code: Seq<u8>, ip: u64) -> u32;

/// The names (`Debug`) of operand `idx`'s kind and register.
pub uninterp spec fn iced_operand(bitness: u32, code: Seq<u8>, ip: u64, idx: u32) -> (
    Seq<char>,
    Seq<char>,
);

/// Its immediates: 8, 16, 32, 64 bits, and sign-extended 8-to-16, 8-to-32,
/// 8-to-64 and 32-to-64.
pub uninterp spec fn iced_immediates(bitness: u32, code: Seq<u8>, ip: u64) -> (
    u8,
    u16,
    u32,
    u64,
    i16,
    i32,
    i64,
    i64,
);

/// Its memory operand: base and index register names (`Debug`), index
/// scale, 64-bit displacement, and size in bytes.
pub uninterp spec fn iced_memory(bitness: u32, code: Seq<u8>, ip: u64) -> (
    Seq<char>,
    Seq<char>,
    u32,
    u64,
    usize,
);

/// `Decoder::decode` then `Instruction::len`: the decoder reads at least
/// one byte of a nonempty input and never past its end.
#[verifier::external_body]
fn decoded_length(bitness: u32, code: &[u8], ip: u64) -> (r: usize)
    requires
        valid_bitness(bitness),
        code@.len() > 0,
    ensures
        r == iced_length(bitness, code@, ip),
        1 <= r <= code@.len(),
{
    Decoder::with_ip(bitness, code, ip, DecoderOptions::NONE).decode().len()
}

/// `IntelFormatter::format` of the decoded instruction.
#[verifier::external_body]
fn decoded_text(bitness: u32, code: &[u8], ip: u64) -> (r: String)
    requires
        valid_bitness(bitness),
    ensures
        r@ == iced_intel_text(bitness, code@, ip),
{
    let mut text = String::new();
    IntelFormatter::new().format(&Decoder::with_ip(bitness, code, ip, DecoderOptions::NONE).decode(), &mut text);
    text
}

/// `Instruction::mnemonic` of the decoded instruction, by its `Debug` name.
#[verifier::external_body]
fn decoded_mnemonic(bitness: u32, code: &[u8], ip: u64) -> (r: String)
    requires
        valid_bitness(bitness),
    ensures
        r@ == iced_mnemonic_name(bitness, code@, ip),
{
    format!("{:?}", Decoder::with_ip(bitness, code, ip, DecoderOptions::NONE).decode().mnemonic())
}

/// The near-branch kinds and `Instruction::near_branch_target` of the decoded instruction.
#[verifier::external_body]
fn decoded_branch(bitness: u32, code: &[u8], ip: u64) -> (r: (bool, bool, bool, bool, bool, u64))
    requires
        valid_bitness(bitness),
    ensures
        r == iced_near_branch(bitness, code@, ip),
{
    let i = Decoder::with_ip(bitness, code, ip, DecoderOptions::NONE).decode();
    (i.is_jmp_near(), i.is_jmp_short(), i.is_jcc_near(), i.is_jcc_short(), i.is_call_near(), i.near_branch_target())
}

/// `Instruction::op_count` of the decoded instruction; an instruction has at most five operands.
#[verifier::external_body]
fn decoded_op_count(bitness: u32, code: &[u8], ip: u64) -> (r: u32)
    requires
        valid_bitness(bitness),
    ensures
        r == iced_op_count(bitness, code@, ip),
        r <= 5,
{
    Decoder::with_ip(bitness, code, ip, DecoderOptions::NONE).decode().op_count()
}

/// `Instruction::op_kind` and `Instruction::op_register` of operand `idx`, by `Debug` name.
#[verifier::external_body]
fn decoded_operand(bitness: u32, code: &[u8], ip: u64, idx: u32) -> (r: (String, String))
    requires
        valid_bitness(bitness),
        idx < 5,
    ensures
        (r.0@, r.1@) == iced_operand(bitness, code@, ip, idx),
{
    let i = Decoder::with_ip(bitness, code, ip, DecoderOptions::NONE).decode();
    (format!("{:?}", i.op_kind(idx)), format!("{:?}", i.op_register(idx)))
}

/// The immediate accessors of the decoded instruction.
#[verifier::external_body]
fn decoded_immediates(bitness: u32, code: &[u8], ip: u64) -> (r: (u8, u16, u32, u64, i16, i32, i64, i64))
    requires
        valid_bitness(bitness),
    ensures
        r == iced_immediates(bitness, code@, ip),
{
    let i = Decoder::with_ip(bitness, code, ip, DecoderOptions::NONE).decode();
    (i.immediate8(), i.immediate16(), i.immediate32(), i.immediate64(), i.immediate8to16(), i.immediate8to32(), i.immediate8to64(), i.immediate32to64())
}

/// The memory-operand accessors of the decoded instruction (registers by `Debug` name).
#[verifier::external_body]
fn decoded_memory(bitness: u32, code: &[u8], ip: u64) -> (r: (String, String, u32, u64, usize))
    requires
        valid_bitness(bitness),
    ensures
        (r.0@, r.1@, r.2, r.3, r.4) == iced_memory(bitness, code@, ip),
{
    let i = Decoder::with_ip(bitness, code, ip, DecoderOptions::NONE).decode();
    (format!("{:?}", i.memory_base()), format!("{:?}", i.memory_index()), i.memory_index_scale(), i.memory_displacement64(), i.memory_size().size())
}

/// A register by its name, or none for `None`.
pub open spec fn register_or_none(name: Seq<char>) -> Option<Seq<char>> {
    if name == "None"@ {
        None
    } else {
        Some(lower_seq(name))
    }
}

/// The IR operand of an operand kind, with the instruction's register,
/// immediates and memory fields.
pub open spec fn operand_of(
    kind: Seq<char>,
    reg: Seq<char>,
    imm: (u8, u16, u32, u64, i16, i32, i64, i64),
    mem: (Seq<char>, Seq<char>, u32, u64, usize),
) -> OperandV {
    if kind == "Register"@ {
        OperandV::Reg(lower_seq(reg))
    } else if kind == "Immediate8"@ {
        OperandV::Imm(imm.0 as i8 as i64)
    } else if kind == "Immediate16"@ {
        OperandV::Imm(imm.1 as i16 as i64)
    } else if kind == "Immediate32"@ {
        OperandV::Imm(imm.2 as i32 as i64)
    } else if kind == "Immediate64"@ {
        OperandV::Imm(imm.3 as i64)
    } else if kind == "Immediate8to16"@ {
        OperandV::Imm(imm.4 as i64)
    } else if kind == "Immediate8to32"@ {
        OperandV::Imm(imm.5 as i64)
    } else if kind == "Immediate8to64"@ {
        OperandV::Imm(imm.6)
    } else if kind == "Immediate32to64"@ {
        OperandV::Imm(imm.7)
    } else if kind == "Memory"@ {
        OperandV::Mem(
            MemoryOperandV {
                base: register_or_none(mem.0),
                index: register_or_none(mem.1),
                scale: mem.2 as u8,
                disp: mem.3 as i64,
                size_bytes: if mem.4 as u32 == 0 {
                    None
                } else {
                    Some(mem.4 as u32)
                },
            },
        )
    } else {
        OperandV::Other(lower_seq(kind))
    }
}

/// The IR of a decoded instruction, from its address, mnemonic name,
/// operand kinds and registers, immediates and memory fields.
pub open spec fn ir_of_decoded(
    ip: u64,
    mnemonic: Seq<char>,
    kinds: Seq<(Seq<char>, Seq<char>)>,
    imm: (u8, u16, u32, u64, i16, i32, i64, i64),
    mem: (Seq<char>, Seq<char>, u32, u64, usize),
) -> InstructionIRV {
    InstructionIRV {
        address: ip,
        op: lower_seq(mnemonic),
        operands: Seq::new(kinds.len(), |k: int| operand_of(kinds[k].0, kinds[k].1, imm, mem)),
    }
}

/// The kind and register names of each operand of the decoded instruction.
pub open spec fn decoded_kinds(b: u32, code: Seq<u8>, ip: u64) -> Seq<(Seq<char>, Seq<char>)> {
    Seq::new(iced_op_count(b, code, ip) as nat, |k: int| iced_operand(b, code, ip, k as u32))
}

/// The IR of the instruction decoded at the start of `code`.
pub open spec fn decoded_ir(b: u32, code: Seq<u8>, ip: u64) -> InstructionIRV {
    ir_of_decoded(
        ip,
        iced_mnemonic_name(b, code, ip),
        decoded_kinds(b, code, ip),
        iced_immediates(b, code, ip),
        iced_memory(b, code, ip),
    )
}

/// The text before the first whitespace, and the rest without leading whitespace.
pub open spec fn split_formatted(t: Seq<char>) -> (Seq<char>, Seq<char>) {
    let k = first_ws_from(t, 0);
    if k < t.len() {
        (t.subrange(0, k), trim_start(t.subrange(k, t.len() as int)))
    } else {
        (t, seq![])
    }
}

pub open spec fn branch_target_of(f: (bool, bool, bool, bool, bool, u64)) -> Option<u64> {
    if f.0 || f.1 || f.2 || f.3 || f.4 {
        Some(f.5)
    } else {
        None
    }
}

/// The bytes of an instruction: `data[start..end]` for its offset from the
/// stream's address (saturating), or none when that range is out of the data.
pub open spec fn instruction_bytes(data: Seq<u8>, address: u64, ip: u64, len: usize) -> Seq<u8> {
    let start = ip.saturating_sub(address) as usize;
    let end = start.saturating_add(len);
    if start <= end && end <= data.len() {
        data.subrange(start as int, end as int)
    } else {
        seq![]
    }
}

/// An instruction of the stream from what the decoder gave at `ip`: its
/// length, formatted text, near-branch kinds and target, and IR.
pub open spec fn instruction_of_decoded(
    data: Seq<u8>,
    address: u64,
    ip: u64,
    len: usize,
    text: Seq<char>,
    branch: (bool, bool, bool, bool, bool, u64),
    ir: InstructionIRV,
) -> X86InstructionV {
    X86InstructionV {
        address: ip,
        bytes: instruction_bytes(data, address, ip, len),
        mnemonic: split_formatted(text).0,
        operands: split_formatted(text).1,
        length: len,
        ir: Some(ir),
        near_branch_target: branch_target_of(branch),
    }
}

/// The instruction decoded at offset `off` of the stream.
pub open spec fn instruction_at(b: u32, data: Seq<u8>, address: u64, off: int) -> X86InstructionV {
    let code = data.subrange(off, data.len() as int);
    let ip = address.wrapping_add(off as u64);
    instruction_of_decoded(
        data,
        address,
        ip,
        iced_length(b, code, ip),
        iced_intel_text(b, code, ip),
        iced_near_branch(b, code, ip),
        decoded_ir(b, code, ip),
    )
}

/// The instructions decoded from offset `off` to the end, each starting where
/// the one before ends.
pub open spec fn decoded_from(b: u32, data: Seq<u8>, address: u64, off: int) -> Seq<X86InstructionV>
    decreases data.len() - off,
{
    if off < 0 || off >= data.len() {
        seq![]
    } else {
        let len = iced_length(b, data.subrange(off, data.len() as int), address.wrapping_add(off as u64));
        if len == 0 || off + len > data.len() {
            seq![instruction_at(b, data, address, off)]
        } else {
            seq![instruction_at(b, data, address, off)] + decoded_from(b, data, address, off + len)
        }
    }
}

/// The IR operand of one decoded operand.
pub fn decode_operand(kind: &String, reg: &String, imm: (u8, u16, u32, u64, i16, i32, i64, i64), mem: &(String, String, u32, u64, usize)) -> (r: Operand)
    ensures
        r@ == operand_of(kind@, reg@, imm, (mem.0@, mem.1@, mem.2, mem.3, mem.4)),
{
    let k = chars_of(kind.as_str());
    if eq_str(&k, "Register") {
        Operand::Reg(string_of(&lower_chars(&chars_of(reg.as_str()))))
    } else if eq_str(&k, "Immediate8") {
        Operand::Imm(imm.0 as i8 as i64)
    } else if eq_str(&k, "Immediate16") {
        Operand::Imm(imm.1 as i16 as i64)
    } else if eq_str(&k, "Immediate32") {
        Operand::Imm(imm.2 as i32 as i64)
    } else if eq_str(&k, "Immediate64") {
        Operand::Imm(imm.3 as i64)
    } else if eq_str(&k, "Immediate8to16") {
        Operand::Imm(imm.4 as i64)
    } else if eq_str(&k, "Immediate8to32") {
        Operand::Imm(imm.5 as i64)
    } else if eq_str(&k, "Immediate8to64") {
        Operand::Imm(imm.6)
    } else if eq_str(&k, "Immediate32to64") {
        Operand::Imm(imm.7)
    } else if eq_str(&k, "Memory") {
        let size = mem.4 as u32;
        Operand::Mem(
            MemoryOperand {
                base: register_name(&mem.0),
                index: register_name(&mem.1),
                scale: mem.2 as u8,
                disp: mem.3 as i64,
                size_bytes: if size == 0 {
                    None
                } else {
                    Some(size)
                },
            },
        )
    } else {
        Operand::Other(string_of(&lower_chars(&k)))
    }
}

fn register_name(name: &String) -> (r: Option<String>)
    ensures
        crate::disasm::ir::opt_str_v(r) == register_or_none(name@),
{
    let n = chars_of(name.as_str());
    if eq_str(&n, "None") {
        None
    } else {
        Some(string_of(&lower_chars(&n)))
    }
}

pub open spec fn kinds_view(v: Seq<(String, String)>) -> Seq<(Seq<char>, Seq<char>)> {
    v.map_values(|p: (String, String)| (p.0@, p.1@))
}

/// The IR of a decoded instruction from the decoder's values for it.
pub fn ir_from_decoded(
    ip: u64,
    mnemonic: &str,
    kinds: &Vec<(String, String)>,
    imm: (u8, u16, u32, u64, i16, i32, i64, i64),
    mem: &(String, String, u32, u64, usize),
) -> (r: InstructionIR)
    ensures
        r@ == ir_of_decoded(ip, mnemonic@, kinds_view(kinds@), imm, (mem.0@, mem.1@, mem.2, mem.3, mem.4)),
{
    let op = string_of(&lower_chars(&chars_of(mnemonic)));
    let mut operands: Vec<Operand> = Vec::new();
    let mut idx: usize = 0;
    while idx < kinds.len()
        invariant
            idx <= kinds@.len(),
            operands@.len() == idx,
            forall|j: int|
                0 <= j < idx ==> (#[trigger] operands@[j])@ == operand_of(
                    kinds@[j].0@,
                    kinds@[j].1@,
                    imm,
                    (mem.0@, mem.1@, mem.2, mem.3, mem.4),
                ),
        decreases kinds@.len() - idx,
    {
        operands.push(decode_operand(&kinds[idx].0, &kinds[idx].1, imm, mem));
        idx = idx + 1;
    }
    let r = InstructionIR { address: ip, op, operands };
    proof {
        assert(r@.operands =~= ir_of_decoded(
            ip,
            mnemonic@,
            kinds_view(kinds@),
            imm,
            (mem.0@, mem.1@, mem.2, mem.3, mem.4),
        ).operands);
    }
    r
}

fn decode_ir(bitness: u32, code: &[u8], ip: u64) -> (r: InstructionIR)
    requires
        valid_bitness(bitness),
    ensures
        r@ == decoded_ir(bitness, code@, ip),
{
    let mnemonic = decoded_mnemonic(bitness, code, ip);
    let imm = decoded_immediates(bitness, code, ip);
    let mem = decoded_memory(bitness, code, ip);
    let count = decoded_op_count(bitness, code, ip);
    let mut kinds: Vec<(String, String)> = Vec::new();
    let mut idx: u32 = 0;
    while idx < count
        invariant
            valid_bitness(bitness),
            count == iced_op_count(bitness, code@, ip),
            count <= 5,
            idx <= count,
            kinds@.len() == idx,
            forall|j: int|
                0 <= j < idx ==> kinds_view(kinds@)[j] == #[trigger] iced_operand(bitness, code@, ip, j as u32),
        decreases count - idx,
    {
        let k = decoded_operand(bitness, code, ip, idx);
        kinds.push(k);
        idx = idx + 1;
    }
    proof {
        assert(kinds_view(kinds@) =~= decoded_kinds(bitness, code@, ip));
    }
    ir_from_decoded(ip, mnemonic.as_str(), &kinds, imm, &mem)
}

fn copy_bytes(data: &[u8], start: usize, end: usize) -> (r: Vec<u8>)
    requires
        start <= end <= data@.len(),
    ensures
        r@ == data@.subrange(start as int, end as int),
{
    let mut out: Vec<u8> = Vec::new();
    let mut i = start;
    while i < end
        invariant
            start <= i <= end <= data@.len(),
            out@ == data@.subrange(start as int, i as int),
        decreases end - i,
    {
        out.push(data[i]);
        i = i + 1;
    }
    out
}

fn rest_of(data: &[u8], off: usize) -> (r: Vec<u8>)
    requires
        off <= data@.len(),
    ensures
        r@ == data@.subrange(off as int, data@.len() as int),
{
    copy_bytes(data, off, data.len())
}

/// The mnemonic (up to the first whitespace) and the operands (the rest,
/// without leading whitespace) of a formatted instruction.
fn split_text(text: &String) -> (r: (String, String))
    ensures
        (r.0@, r.1@) == split_formatted(text@),
{
    let t = chars_of(text.as_str());
    let mut k: usize = 0;
    while k < t.len() && !is_ws_exec(t[k])
        invariant
            k <= t@.len(),
            first_ws_from(t@, 0) == first_ws_from(t@, k as int),
        decreases t@.len() - k,
    {
        k = k + 1;
    }
    if k < t.len() {
        let head = crate::text::slice_chars(&t, 0, k);
        let tail = crate::text::slice_chars(&t, k, t.len());
        (string_of(&head), string_of(&trim_start_exec(&tail)))
    } else {
        (text.clone(), String::new())
    }
}

/// An instruction of the stream from the decoder's values for it.
pub fn instruction_from_decoded(
    data: &[u8],
    address: u64,
    ip: u64,
    len: usize,
    text: &String,
    branch: (bool, bool, bool, bool, bool, u64),
    ir: InstructionIR,
) -> (r: X86Instruction)
    ensures
        r@ == instruction_of_decoded(data@, address, ip, len, text@, branch, ir@),
{
    let (mnemonic, operands) = split_text(text);
    let start = ip.saturating_sub(address) as usize;
    let end = start.saturating_add(len);
    let bytes = if start <= end && end <= data.len() {
        copy_bytes(data, start, end)
    } else {
        Vec::new()
    };
    let target = if branch.0 || branch.1 || branch.2 || branch.3 || branch.4 {
        Some(branch.5)
    } else {
        None
    };
    let r = X86Instruction {
        address: ip,
        bytes,
        mnemonic,
        operands,
        length: len,
        ir: Some(ir),
        near_branch_target: target,
    };
    proof {
        assert(bytes@ == instruction_bytes(data@, address, ip, len));
    }
    r
}

/// The instruction decoded at offset `off`.
fn decode_at(bitness: u32, data: &[u8], address: u64, off: usize) -> (r: X86Instruction)
    requires
        valid_bitness(bitness),
        off < data@.len(),
    ensures
        r@ == instruction_at(bitness, data@, address, off as int),
        1 <= r.length <= data@.len() - off,
{
    let code = rest_of(data, off);
    let ip = address.wrapping_add(off as u64);
    let len = decoded_length(bitness, &code, ip);
    let text = decoded_text(bitness, &code, ip);
    let flags = decoded_branch(bitness, &code, ip);
    let ir = decode_ir(bitness, &code, ip);
    instruction_from_decoded(data, address, ip, len, &text, flags, ir)
}

impl X86Disassembler {
    /// Disassemble bytes starting at the given address: one instruction after
    /// another, each starting where the previous one ends, to the end of the data.
    pub fn disassemble(&self, data: &[u8], address: u64) -> (r: Result<Vec<X86Instruction>, Error>)
        ensures
            match r {
                Ok(v) => valid_bitness(self.spec_bitness()) && v@.map_values(|i: X86Instruction| i@)
                    == decoded_from(self.spec_bitness(), data@, address, 0),
                Err(e) => !valid_bitness(self.spec_bitness()) && (e matches Error::Disassembly(m)
                    && m@ == "Invalid x86 bitness: "@ + dec_text(self.spec_bitness() as nat)),
            },
    {
        if self.bitness != 16 && self.bitness != 32 && self.bitness != 64 {
            let mut m: Vec<char> = Vec::new();
            extend_chars(&mut m, "Invalid x86 bitness: ");
            push_dec(&mut m, self.bitness as u64);
            return Err(Error::Disassembly(string_of(&m)));
        }
        let mut instructions: Vec<X86Instruction> = Vec::new();
        let mut off: usize = 0;
        let ghost all = decoded_from(self.bitness, data@, address, 0);
        proof {
            assert(instructions@.map_values(|i: X86Instruction| i@) + decoded_from(self.bitness, data@, address, 0) =~= all);
        }
        while off < data.len()
            invariant
                valid_bitness(self.bitness),
                off <= data@.len(),
                all == decoded_from(self.bitness, data@, address, 0),
                instructions@.map_values(|i: X86Instruction| i@) + decoded_from(
                    self.bitness,
                    data@,
                    address,
                    off as int,
                ) == all,
            decreases data@.len() - off,
        {
            let ghost before = instructions@.map_values(|i: X86Instruction| i@);
            let instr = decode_at(self.bitness, data, address, off);
            let len = instr.length;
            proof {
                assert(data@.subrange(off as int, data@.len() as int).len() > 0);
                assert(decoded_from(self.bitness, data@, address, off as int) == seq![instr@]
                    + decoded_from(self.bitness, data@, address, off + len));
            }
            instructions.push(instr);
            proof {
                assert(instructions@.map_values(|i: X86Instruction| i@) =~= before.push(instr@));
                assert(before.push(instr@) + decoded_from(self.bitness, data@, address, off + len)
                    =~= before + (seq![instr@] + decoded_from(self.bitness, data@, address, off + len)));
            }
            off = off + len;
        }
        proof {
            assert(decoded_from(self.bitness, data@, address, off as int) =~= seq![]);
            assert(instructions@.map_values(|i: X86Instruction| i@) =~= all);
        }
        Ok(instructions)
    }
}

} // verus!
