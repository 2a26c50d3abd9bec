//! Conservative function signature recovery.
//!
//! Parameters are the argument registers of the target ABI that a function
//! reads before writing them, in its first straight-line instructions; the
//! return value is `rax` where a `return` directly follows an assignment to it.

use crate::analysis::functions::FunctionInfo;
use crate::analysis::types::{TypeInfo, TypeV};
use crate::decompiler::ast::{stmt_v, ExprV, Expression, Function, FunctionV, Parameter, ParameterV, StmtV, Statement};
use crate::decompiler::registers::{register_class, register_class_exec};
use crate::disasm::control_flow::Instruction;
use crate::disasm::x86::{is_call_mnemonic, is_return_mnemonic, X86InstructionV};
use crate::text::{
    chars_of, eq_ignore_case, eq_ignore_case_exec, eq_str, lower_chars, lower_seq, occurs_at,
    occurs_at_exec, string_of, trim, trim_exec,
};
use vstd::prelude::*;

verus! {

// ---------------------------------------------------------------------------
// ABI and registers
// ---------------------------------------------------------------------------

/// The argument registers, in order: Microsoft x64 for PE executables,
/// System V for other x64 binaries, none for other architectures.
pub open spec fn argument_register_names(format: Seq<char>, arch: Seq<char>) -> Option<
    Seq<Seq<char>>,
> {
    if arch == "x64"@ {
        if format == "PE/EXE"@ {
            Some(seq!["rcx"@, "rdx"@, "r8"@, "r9"@])
        } else {
            Some(seq!["rdi"@, "rsi"@, "rdx"@, "rcx"@, "r8"@, "r9"@])
        }
    } else {
        None
    }
}

/// The class of a lower-case register name, when it is one of the general
/// registers an argument or a return value can travel in.
pub open spec fn arg_register_class(l: Seq<char>) -> Option<Seq<char>> {
    match register_class(l) {
        Some(c) => if c == "rax"@ || c == "rbx"@ || c == "rcx"@ || c == "rdx"@ || c == "rsi"@
            || c == "rdi"@ || c == "r8"@ || c == "r9"@ {
            Some(c)
        } else {
            None
        },
        None => None,
    }
}

/// Skips every repetition of `p` at position `i`.
pub open spec fn strip_from(s: Seq<char>, p: Seq<char>, i: int) -> int
    decreases s.len() - i,
{
    if p.len() > 0 && 0 <= i && occurs_at(s, p, i) {
        strip_from(s, p, i + p.len())
    } else {
        i
    }
}

pub open spec fn is_word_char(c: char) -> bool {
    ('a' <= c && c <= 'z') || ('A' <= c && c <= 'Z') || ('0' <= c && c <= '9') || c == '_'
}

/// The end of the run of word characters that starts at `i`.
pub open spec fn word_end(s: Seq<char>, i: int) -> int
    decreases s.len() - i,
{
    if 0 <= i < s.len() && is_word_char(s[i]) {
        word_end(s, i + 1)
    } else {
        i
    }
}

/// The first run of word characters from position `i` on.
pub open spec fn first_word_from(s: Seq<char>, i: int) -> Option<Seq<char>>
    decreases s.len() - i,
{
    if i < 0 || i >= s.len() {
        None
    } else if !is_word_char(s[i]) {
        first_word_from(s, i + 1)
    } else {
        Some(s.subrange(i, word_end(s, i)))
    }
}

/// The argument-class register an operand names: its first word, after any
/// `byte ptr `, `word ptr `, `dword ptr ` and `qword ptr ` size prefixes.
pub open spec fn register_in_operand_spec(operand: Seq<char>) -> Option<Seq<char>> {
    let t = trim(operand);
    let i1 = strip_from(t, "byte ptr "@, 0);
    let i2 = strip_from(t, "word ptr "@, i1);
    let i3 = strip_from(t, "dword ptr "@, i2);
    let i4 = strip_from(t, "qword ptr "@, i3);
    match first_word_from(t, i4) {
        Some(w) => arg_register_class(lower_seq(w)),
        None => None,
    }
}

// ---------------------------------------------------------------------------
// Operands
// ---------------------------------------------------------------------------

/// The pieces of `s` between commas, as `str::split(',')` yields them.
pub open spec fn comma_pieces(s: Seq<char>) -> Seq<Seq<char>>
    decreases s.len(),
{
    if s.len() == 0 {
        seq![seq![]]
    } else {
        let t = comma_pieces(s.drop_last());
        if s.last() == ',' {
            t.push(seq![])
        } else {
            t.update(t.len() - 1, t.last().push(s.last()))
        }
    }
}

/// The trimmed pieces that are not empty.
pub open spec fn trimmed_nonempty(ps: Seq<Seq<char>>) -> Seq<Seq<char>>
    decreases ps.len(),
{
    if ps.len() == 0 {
        seq![]
    } else {
        let rest = trimmed_nonempty(ps.drop_last());
        if trim(ps.last()).len() > 0 {
            rest.push(trim(ps.last()))
        } else {
            rest
        }
    }
}

/// The comma-separated operands of an operand text, trimmed, empty ones dropped.
pub open spec fn split_operands_spec(s: Seq<char>) -> Seq<Seq<char>> {
    trimmed_nonempty(comma_pieces(s))
}

/// The registers of a list of operands, in order.
pub open spec fn registers_of(ops: Seq<Seq<char>>) -> Seq<Seq<char>>
    decreases ops.len(),
{
    if ops.len() == 0 {
        seq![]
    } else {
        let rest = registers_of(ops.drop_last());
        match register_in_operand_spec(ops.last()) {
            Some(r) => rest.push(r),
            None => rest,
        }
    }
}

pub open spec fn is_move_mnemonic(m: Seq<char>) -> bool {
    m == "mov"@ || m == "movzx"@ || m == "movsxd"@ || m == "lea"@
}

/// The registers an instruction reads: none for `xor r, r`; the source
/// operands of a move; every operand otherwise.
pub open spec fn read_registers_spec(m: Seq<char>, ops: Seq<Seq<char>>) -> Seq<Seq<char>> {
    if m == "xor"@ && ops.len() == 2 && eq_ignore_case(ops[0], ops[1]) {
        seq![]
    } else if is_move_mnemonic(m) && ops.len() >= 2 {
        registers_of(ops.subrange(1, ops.len() as int))
    } else {
        registers_of(ops)
    }
}

proof fn lemma_signature_mnemonics_distinct()
    ensures
        "mov"@ != "movzx"@,
        "mov"@ != "movsxd"@,
        "mov"@ != "lea"@,
        "mov"@ != "xor"@,
        "mov"@ != "add"@,
        "mov"@ != "sub"@,
        "mov"@ != "and"@,
        "mov"@ != "or"@,
        "mov"@ != "imul"@,
        "mov"@ != "cmp"@,
        "mov"@ != "test"@,
        "movzx"@ != "movsxd"@,
        "movzx"@ != "lea"@,
        "movzx"@ != "xor"@,
        "movzx"@ != "add"@,
        "movzx"@ != "sub"@,
        "movzx"@ != "and"@,
        "movzx"@ != "or"@,
        "movzx"@ != "imul"@,
        "movzx"@ != "cmp"@,
        "movzx"@ != "test"@,
        "movsxd"@ != "lea"@,
        "movsxd"@ != "xor"@,
        "movsxd"@ != "add"@,
        "movsxd"@ != "sub"@,
        "movsxd"@ != "and"@,
        "movsxd"@ != "or"@,
        "movsxd"@ != "imul"@,
        "movsxd"@ != "cmp"@,
        "movsxd"@ != "test"@,
        "lea"@ != "xor"@,
        "lea"@ != "add"@,
        "lea"@ != "sub"@,
        "lea"@ != "and"@,
        "lea"@ != "or"@,
        "lea"@ != "imul"@,
        "lea"@ != "cmp"@,
        "lea"@ != "test"@,
        "xor"@ != "add"@,
        "xor"@ != "sub"@,
        "xor"@ != "and"@,
        "xor"@ != "or"@,
        "xor"@ != "imul"@,
        "xor"@ != "cmp"@,
        "xor"@ != "test"@,
        "add"@ != "sub"@,
        "add"@ != "and"@,
        "add"@ != "or"@,
        "add"@ != "imul"@,
        "add"@ != "cmp"@,
        "add"@ != "test"@,
        "sub"@ != "and"@,
        "sub"@ != "or"@,
        "sub"@ != "imul"@,
        "sub"@ != "cmp"@,
        "sub"@ != "test"@,
        "and"@ != "or"@,
        "and"@ != "imul"@,
        "and"@ != "cmp"@,
        "and"@ != "test"@,
        "or"@ != "imul"@,
        "or"@ != "cmp"@,
        "or"@ != "test"@,
        "imul"@ != "cmp"@,
        "imul"@ != "test"@,
        "cmp"@ != "test"@,
{
    reveal_strlit("mov");
    reveal_strlit("movzx");
    reveal_strlit("movsxd");
    reveal_strlit("lea");
    reveal_strlit("xor");
    reveal_strlit("add");
    reveal_strlit("sub");
    reveal_strlit("and");
    reveal_strlit("or");
    reveal_strlit("imul");
    reveal_strlit("cmp");
    reveal_strlit("test");
    assert("mov"@.len() != "movzx"@.len());
    assert("mov"@.len() != "movsxd"@.len());
    assert("mov"@[0] != "lea"@[0]);
    assert("mov"@[0] != "xor"@[0]);
    assert("mov"@[0] != "add"@[0]);
    assert("mov"@[0] != "sub"@[0]);
    assert("mov"@[0] != "and"@[0]);
    assert("mov"@.len() != "or"@.len());
    assert("mov"@.len() != "imul"@.len());
    assert("mov"@[0] != "cmp"@[0]);
    assert("mov"@.len() != "test"@.len());
    assert("movzx"@.len() != "movsxd"@.len());
    assert("movzx"@.len() != "lea"@.len());
    assert("movzx"@.len() != "xor"@.len());
    assert("movzx"@.len() != "add"@.len());
    assert("movzx"@.len() != "sub"@.len());
    assert("movzx"@.len() != "and"@.len());
    assert("movzx"@.len() != "or"@.len());
    assert("movzx"@.len() != "imul"@.len());
    assert("movzx"@.len() != "cmp"@.len());
    assert("movzx"@.len() != "test"@.len());
    assert("movsxd"@.len() != "lea"@.len());
    assert("movsxd"@.len() != "xor"@.len());
    assert("movsxd"@.len() != "add"@.len());
    assert("movsxd"@.len() != "sub"@.len());
    assert("movsxd"@.len() != "and"@.len());
    assert("movsxd"@.len() != "or"@.len());
    assert("movsxd"@.len() != "imul"@.len());
    assert("movsxd"@.len() != "cmp"@.len());
    assert("movsxd"@.len() != "test"@.len());
    assert("lea"@[0] != "xor"@[0]);
    assert("lea"@[0] != "add"@[0]);
    assert("lea"@[0] != "sub"@[0]);
    assert("lea"@[0] != "and"@[0]);
    assert("lea"@.len() != "or"@.len());
    assert("lea"@.len() != "imul"@.len());
    assert("lea"@[0] != "cmp"@[0]);
    assert("lea"@.len() != "test"@.len());
    assert("xor"@[0] != "add"@[0]);
    assert("xor"@[0] != "sub"@[0]);
    assert("xor"@[0] != "and"@[0]);
    assert("xor"@.len() != "or"@.len());
    assert("xor"@.len() != "imul"@.len());
    assert("xor"@[0] != "cmp"@[0]);
    assert("xor"@.len() != "test"@.len());
    assert("add"@[0] != "sub"@[0]);
    assert("add"@[1] != "and"@[1]);
    assert("add"@.len() != "or"@.len());
    assert("add"@.len() != "imul"@.len());
    assert("add"@[0] != "cmp"@[0]);
    assert("add"@.len() != "test"@.len());
    assert("sub"@[0] != "and"@[0]);
    assert("sub"@.len() != "or"@.len());
    assert("sub"@.len() != "imul"@.len());
    assert("sub"@[0] != "cmp"@[0]);
    assert("sub"@.len() != "test"@.len());
    assert("and"@.len() != "or"@.len());
    assert("and"@.len() != "imul"@.len());
    assert("and"@[0] != "cmp"@[0]);
    assert("and"@.len() != "test"@.len());
    assert("or"@.len() != "imul"@.len());
    assert("or"@.len() != "cmp"@.len());
    assert("or"@.len() != "test"@.len());
    assert("imul"@.len() != "cmp"@.len());
    assert("imul"@[0] != "test"@[0]);
    assert("cmp"@.len() != "test"@.len());
}

/// Law: a move (`mov`, `movzx`, `movsxd`, `lea`) with a destination reads
/// only the registers of its source operands, so its destination never
/// counts as read; `cmp`, `test` and the arithmetic instructions read every
/// operand, and `xor r, r` reads nothing. Of these, the moves, `xor`, `add`,
/// `sub`, `and`, `or` and `imul` write their destination; `cmp` and `test`
/// write none.
pub proof fn lemma_registers_read_and_written(ops: Seq<Seq<char>>)
    ensures
        ops.len() >= 2 ==> read_registers_spec("mov"@, ops) == registers_of(ops.drop_first()),
        ops.len() >= 2 ==> read_registers_spec("movzx"@, ops) == registers_of(ops.drop_first()),
        ops.len() >= 2 ==> read_registers_spec("movsxd"@, ops) == registers_of(ops.drop_first()),
        ops.len() >= 2 ==> read_registers_spec("lea"@, ops) == registers_of(ops.drop_first()),
        read_registers_spec("cmp"@, ops) == registers_of(ops),
        read_registers_spec("test"@, ops) == registers_of(ops),
        read_registers_spec("add"@, ops) == registers_of(ops),
        read_registers_spec("sub"@, ops) == registers_of(ops),
        read_registers_spec("and"@, ops) == registers_of(ops),
        read_registers_spec("or"@, ops) == registers_of(ops),
        read_registers_spec("imul"@, ops) == registers_of(ops),
        ops.len() == 2 && eq_ignore_case(ops[0], ops[1]) ==> read_registers_spec("xor"@, ops) == Seq::<
            Seq<char>,
        >::empty(),
        !(ops.len() == 2 && eq_ignore_case(ops[0], ops[1])) ==> read_registers_spec("xor"@, ops)
            == registers_of(ops),
        writes_destination_spec("mov"@) && writes_destination_spec("movzx"@) && writes_destination_spec(
            "movsxd"@,
        ) && writes_destination_spec("lea"@) && writes_destination_spec("xor"@)
            && writes_destination_spec("add"@) && writes_destination_spec("sub"@)
            && writes_destination_spec("and"@) && writes_destination_spec("or"@)
            && writes_destination_spec("imul"@),
        !writes_destination_spec("cmp"@) && !writes_destination_spec("test"@),
{
    lemma_signature_mnemonics_distinct();
    if ops.len() >= 2 {
        assert(ops.subrange(1, ops.len() as int) =~= ops.drop_first());
    }
}

pub open spec fn writes_destination_spec(m: Seq<char>) -> bool {
    m == "mov"@ || m == "movzx"@ || m == "movsxd"@ || m == "lea"@ || m == "xor"@ || m == "add"@
        || m == "sub"@ || m == "and"@ || m == "or"@ || m == "imul"@
}

// ---------------------------------------------------------------------------
// Parameter inference
// ---------------------------------------------------------------------------

pub open spec fn stops_scan(i: X86InstructionV) -> bool {
    is_call_mnemonic(i.mnemonic) || is_return_mnemonic(i.mnemonic)
}

/// How many instructions are scanned: up to 32, and not past the first call
/// or return.
pub open spec fn scan_len_from(s: Seq<Instruction>, k: int) -> int
    decreases 32 - k,
{
    if k < 0 || k >= 32 || k >= s.len() || stops_scan(s[k]@) {
        k
    } else {
        scan_len_from(s, k + 1)
    }
}

/// One instruction of the scan: registers read and not yet written become
/// used arguments; then the destination register is written.
pub open spec fn scan_step(
    st: (Set<Seq<char>>, Set<Seq<char>>),
    i: X86InstructionV,
    args: Seq<Seq<char>>,
) -> (Set<Seq<char>>, Set<Seq<char>>) {
    let m = lower_seq(i.mnemonic);
    let ops = split_operands_spec(i.operands);
    let reads = read_registers_spec(m, ops);
    let used = st.1.union(
        Set::new(|r: Seq<char>| reads.contains(r) && args.contains(r) && !st.0.contains(r)),
    );
    let written = if writes_destination_spec(m) && ops.len() > 0 && register_in_operand_spec(
        ops[0],
    ) is Some {
        st.0.insert(register_in_operand_spec(ops[0]).unwrap())
    } else {
        st.0
    };
    (written, used)
}

/// The (written, used) registers after the first `n` instructions.
pub open spec fn scan(s: Seq<Instruction>, args: Seq<Seq<char>>, n: int) -> (
    Set<Seq<char>>,
    Set<Seq<char>>,
)
    decreases n,
{
    if n <= 0 || n > s.len() {
        (Set::empty(), Set::empty())
    } else {
        scan_step(scan(s, args, n - 1), s[n - 1]@, args)
    }
}

/// The argument registers, in ABI order, that are in `used`.
pub open spec fn used_in_order(args: Seq<Seq<char>>, used: Set<Seq<char>>) -> Seq<Seq<char>>
    decreases args.len(),
{
    if args.len() == 0 {
        seq![]
    } else {
        let rest = used_in_order(args.drop_last(), used);
        if used.contains(args.last()) {
            rest.push(args.last())
        } else {
            rest
        }
    }
}

/// The parameters inferred for a function: each used argument register, in
/// ABI order, as a `u64`.
pub open spec fn inferred_params(s: Seq<Instruction>, format: Seq<char>, arch: Seq<char>) -> Seq<
    ParameterV,
> {
    match argument_register_names(format, arch) {
        Some(args) => {
            let used = scan(s, args, scan_len_from(s, 0)).1;
            used_in_order(args, used).map_values(
                |r: Seq<char>| ParameterV { name: r, type_info: TypeV::U64 },
            )
        },
        None => seq![],
    }
}

// ---------------------------------------------------------------------------
// Return value recovery
// ---------------------------------------------------------------------------

/// An expression statement assigning to the variable `rax`.
pub open spec fn assigns_rax(s: StmtV) -> bool {
    match s {
        StmtV::Expression(e) => match e {
            ExprV::Assignment { target, value } => match *target {
                ExprV::Variable(n) => n == "rax"@,
                _ => false,
            },
            _ => false,
        },
        _ => false,
    }
}

/// A bare `return` right after an assignment to `rax`.
pub open spec fn rax_return_at(b: Seq<StmtV>, i: int) -> bool {
    1 <= i < b.len() && b[i] == StmtV::Return(None) && assigns_rax(b[i - 1])
}

pub open spec fn rax_recovered_body(b: Seq<StmtV>) -> Seq<StmtV> {
    Seq::new(
        b.len(),
        |i: int|
            if rax_return_at(b, i) {
                StmtV::Return(Some(ExprV::Variable("rax"@)))
            } else {
                b[i]
            },
    )
}

pub open spec fn has_rax_return(b: Seq<StmtV>) -> bool {
    exists|i: int| rax_return_at(b, i)
}

/// A function after signature recovery: inferred parameters when it had
/// none, and `rax` returned (as a `u64`) where a bare `return` follows an
/// assignment to it.
pub open spec fn recovered_function(
    f: FunctionV,
    instrs: Seq<Instruction>,
    format: Seq<char>,
    arch: Seq<char>,
) -> FunctionV {
    FunctionV {
        name: f.name,
        return_type: if has_rax_return(f.body) {
            TypeV::U64
        } else {
            f.return_type
        },
        parameters: if f.parameters.len() == 0 {
            inferred_params(instrs, format, arch)
        } else {
            f.parameters
        },
        body: rax_recovered_body(f.body),
        is_variadic: f.is_variadic,
    }
}

/// Law: signature recovery never overwrites parameters that a function
/// already has, and keeps its name and variadic flag.
pub proof fn lemma_preset_parameters_kept(f: FunctionV, instrs: Seq<Instruction>, format: Seq<char>, arch: Seq<char>)
    requires
        f.parameters.len() > 0,
    ensures
        recovered_function(f, instrs, format, arch).parameters == f.parameters,
        recovered_function(f, instrs, format, arch).name == f.name,
        recovered_function(f, instrs, format, arch).is_variadic == f.is_variadic,
{
}

pub open spec fn names_of(v: Seq<String>) -> Seq<Seq<char>> {
    v.map_values(|s: String| s@)
}

// ---------------------------------------------------------------------------
// Executable functions
// ---------------------------------------------------------------------------

/// Recover simple ABI-level function signatures and return values in place,
/// pairing each function with the detected function at the same position.
pub fn recover_function_signatures(
    functions: &mut Vec<Function>,
    infos: &[FunctionInfo],
    format: &str,
    architecture: &str,
)
    ensures
        final(functions)@.len() == old(functions)@.len(),
        forall|k: int|
            0 <= k < old(functions)@.len() ==> #[trigger] final(functions)@[k]@ == if k
                < infos@.len() {
                recovered_function(
                    old(functions)@[k]@,
                    infos@[k].instructions@,
                    format@,
                    architecture@,
                )
            } else {
                old(functions)@[k]@
            },
{
    let n = if functions.len() < infos.len() {
        functions.len()
    } else {
        infos.len()
    };
    let mut k: usize = 0;
    while k < n
        invariant
            n <= old(functions)@.len(),
            n <= infos@.len(),
            k <= n,
            functions@.len() == old(functions)@.len(),
            forall|q: int|
                0 <= q < old(functions)@.len() ==> #[trigger] functions@[q]@ == if q < k {
                    recovered_function(
                        old(functions)@[q]@,
                        infos@[q].instructions@,
                        format@,
                        architecture@,
                    )
                } else {
                    old(functions)@[q]@
                },
        decreases n - k,
    {
        let mut f = functions[k].clone();
        if f.parameters.len() == 0 {
            f.parameters = infer_parameters(&infos[k], format, architecture);
        }
        recover_rax_return(&mut f);
        functions.set(k, f);
        k = k + 1;
    }
}

/// The parameters of a function: the argument registers it reads before
/// writing them, in ABI order, typed `u64`.
pub fn infer_parameters(info: &FunctionInfo, format: &str, architecture: &str) -> (r: Vec<
    Parameter,
>)
    ensures
        r@.map_values(|p: Parameter| p@) == inferred_params(
            info.instructions@,
            format@,
            architecture@,
        ),
{
    let arg_registers = match argument_registers(format, architecture) {
        Some(a) => a,
        None => {
            let r: Vec<Parameter> = Vec::new();
            proof {
                assert(r@.map_values(|p: Parameter| p@) =~= seq![]);
            }
            return r;
        },
    };
    let ghost args = arg_registers@.map_values(|a: &str| a@);
    let ghost s = info.instructions@;
    let mut written: Vec<String> = Vec::new();
    let mut used: Vec<String> = Vec::new();
    let mut idx: usize = 0;
    let limit: usize = if info.instructions.len() < 32 {
        info.instructions.len()
    } else {
        32
    };
    while idx < limit
        invariant
            s == info.instructions@,
            limit <= s.len(),
            limit <= 32,
            limit == s.len() || limit == 32,
            idx <= limit,
            scan_len_from(s, 0) == scan_len_from(s, idx as int),
            forall|r: Seq<char>|
                #![trigger names_of(written@).contains(r)]
                #![trigger scan(s, args, idx as int).0.contains(r)]
                names_of(written@).contains(r) == scan(s, args, idx as int).0.contains(r),
            forall|r: Seq<char>|
                #![trigger names_of(used@).contains(r)]
                #![trigger scan(s, args, idx as int).1.contains(r)]
                names_of(used@).contains(r) == scan(s, args, idx as int).1.contains(r),
            args == arg_registers@.map_values(|a: &str| a@),
        ensures
            scan_len_from(s, 0) == idx as int,
            forall|r: Seq<char>|
                #![trigger names_of(written@).contains(r)]
                #![trigger scan(s, args, idx as int).0.contains(r)]
                names_of(written@).contains(r) == scan(s, args, idx as int).0.contains(r),
            forall|r: Seq<char>|
                #![trigger names_of(used@).contains(r)]
                #![trigger scan(s, args, idx as int).1.contains(r)]
                names_of(used@).contains(r) == scan(s, args, idx as int).1.contains(r),
        decreases limit - idx,
    {
        let instruction = &info.instructions[idx];
        if instruction.is_call() || instruction.is_return() {
            break;
        }
        let parts = x86_parts(instruction);
        let mnemonic = parts.0;
        let operands = split_operands(parts.1);
        let ghost st = scan(s, args, idx as int);
        let reads = read_registers(mnemonic.as_str(), &operands);
        let ghost rv = names_of(reads@);
        proof {
            assert(rv == read_registers_spec(lower_seq(s[idx as int]@.mnemonic), split_operands_spec(s[idx as int]@.operands)));
        }
        let mut q: usize = 0;
        while q < reads.len()
            invariant
                q <= reads@.len(),
                rv == names_of(reads@),
                args == arg_registers@.map_values(|a: &str| a@),
                forall|r: Seq<char>|
                    #![trigger names_of(written@).contains(r)]
                    #![trigger st.0.contains(r)]
                    names_of(written@).contains(r) == st.0.contains(r),
                forall|r: Seq<char>|
                    #![trigger names_of(used@).contains(r)]
                    #![trigger st.1.contains(r)]
                    #![trigger rv.take(q as int).contains(r)]
                    names_of(used@).contains(r) == (st.1.contains(r) || (rv.take(q as int).contains(
                        r,
                    ) && args.contains(r) && !st.0.contains(r))),
            decreases reads@.len() - q,
        {
            let reg = &reads[q];
            let is_arg = contains_static(&arg_registers, reg.as_str());
            let seen = contains_string(&written, reg.as_str());
            let ghost old_used = names_of(used@);
            if is_arg && !seen {
                used.push(reg.clone());
                proof {
                    assert(names_of(used@) =~= old_used.push(reg@));
                }
            }
            proof {
                broadcast use vstd::seq_lib::lemma_seq_contains_after_push;
                assert(rv.take(q + 1) =~= rv.take(q as int).push(reg@));
                assert(reg@ == rv[q as int]);
                assert(is_arg == args.contains(reg@));
                assert(seen == st.0.contains(reg@));
                assert forall|r: Seq<char>|
                    names_of(used@).contains(r) == (st.1.contains(r) || (rv.take(q + 1).contains(r)
                        && args.contains(r) && !st.0.contains(r))) by {
                    assert(old_used.contains(r) == (st.1.contains(r) || (rv.take(q as int).contains(r)
                        && args.contains(r) && !st.0.contains(r))));
                    if is_arg && !seen {
                        assert(names_of(used@).contains(r) == (old_used.contains(r) || reg@ == r));
                    }
                    assert(rv.take(q + 1).contains(r) == (rv.take(q as int).contains(r) || reg@ == r));
                }
            }
            q = q + 1;
        }
        proof {
            assert(rv.take(rv.len() as int) =~= rv);
        }
        let ghost old_written = names_of(written@);
        let mut wrote = false;
        if writes_destination(mnemonic.as_str()) && operands.len() > 0 {
            match register_in_operand(operands[0].as_str()) {
                Some(dest) => {
                    written.push(dest);
                    wrote = true;
                },
                None => {},
            }
        }
        proof {
            broadcast use vstd::seq_lib::lemma_seq_contains_after_push;
            let next = scan(s, args, idx + 1);
            assert(next == scan_step(st, s[idx as int]@, args));
            if wrote {
                assert(names_of(written@) =~= old_written.push(names_of(written@).last()));
            } else {
                assert(names_of(written@) =~= old_written);
            }
            assert forall|r: Seq<char>| names_of(used@).contains(r) == next.1.contains(r) by {
                assert(next.1.contains(r) == (st.1.contains(r) || (rv.contains(r) && args.contains(r)
                    && !st.0.contains(r))));
            }
            assert forall|r: Seq<char>| names_of(written@).contains(r) == next.0.contains(r) by {}
        }
        idx = idx + 1;
    }
    let mut params: Vec<Parameter> = Vec::new();
    let ghost used_set = scan(s, args, idx as int).1;
    let mut a: usize = 0;
    while a < arg_registers.len()
        invariant
            a <= arg_registers@.len(),
            args == arg_registers@.map_values(|x: &str| x@),
            forall|r: Seq<char>| names_of(used@).contains(r) == used_set.contains(r),
            params@.map_values(|p: Parameter| p@) == used_in_order(args.take(a as int), used_set).map_values(
                |r: Seq<char>| ParameterV { name: r, type_info: TypeV::U64 },
            ),
        decreases arg_registers@.len() - a,
    {
        let reg = arg_registers[a];
        let ghost before = params@;
        proof {
            assert(args.take(a + 1).drop_last() =~= args.take(a as int));
            assert(args.take(a + 1).last() == reg@);
        }
        if contains_string(&used, reg) {
            params.push(Parameter { name: String::from_str(reg), type_info: TypeInfo::U64 });
            proof {
                assert(params@.map_values(|p: Parameter| p@) =~= before.map_values(
                    |p: Parameter| p@,
                ).push(ParameterV { name: reg@, type_info: TypeV::U64 }));
            }
        }
        a = a + 1;
    }
    proof {
        assert(args.take(args.len() as int) =~= args);
    }
    params
}

fn contains_static(v: &Vec<&'static str>, s: &str) -> (r: bool)
    ensures
        r == v@.map_values(|a: &str| a@).contains(s@),
{
    let target = chars_of(s);
    let mut i: usize = 0;
    while i < v.len()
        invariant
            i <= v@.len(),
            target@ == s@,
            forall|j: int| 0 <= j < i ==> v@[j]@ != s@,
        decreases v@.len() - i,
    {
        if eq_str(&target, v[i]) {
            assert(v@.map_values(|a: &str| a@)[i as int] == s@);
            return true;
        }
        i = i + 1;
    }
    false
}

fn contains_string(v: &Vec<String>, s: &str) -> (r: bool)
    ensures
        r == names_of(v@).contains(s@),
{
    let target = chars_of(s);
    let mut i: usize = 0;
    while i < v.len()
        invariant
            i <= v@.len(),
            target@ == s@,
            forall|j: int| 0 <= j < i ==> v@[j]@ != s@,
        decreases v@.len() - i,
    {
        if eq_str(&target, v[i].as_str()) {
            assert(names_of(v@)[i as int] == s@);
            return true;
        }
        i = i + 1;
    }
    false
}

/// Law: on x64 a PE executable passes its first integer arguments in
/// `rcx`, `rdx`, `r8`, `r9` (the Microsoft x64 convention), any other format
/// in `rdi`, `rsi`, `rdx`, `rcx`, `r8`, `r9` (the System V convention); no
/// argument registers are known for another architecture.
pub proof fn lemma_argument_register_conventions(format: Seq<char>, arch: Seq<char>)
    ensures
        argument_register_names("PE/EXE"@, "x64"@) == Some(seq!["rcx"@, "rdx"@, "r8"@, "r9"@]),
        format != "PE/EXE"@ ==> argument_register_names(format, "x64"@) == Some(
            seq!["rdi"@, "rsi"@, "rdx"@, "rcx"@, "r8"@, "r9"@],
        ),
        arch != "x64"@ ==> argument_register_names(format, arch) is None,
{
}

/// The argument registers of an ABI, by binary format and architecture.
pub fn argument_registers(format: &str, architecture: &str) -> (r: Option<Vec<&'static str>>)
    ensures
        match r {
            Some(v) => argument_register_names(format@, architecture@) == Some(
                v@.map_values(|a: &str| a@),
            ),
            None => argument_register_names(format@, architecture@) is None,
        },
{
    let arch = chars_of(architecture);
    if !eq_str(&arch, "x64") {
        return None;
    }
    let fmt = chars_of(format);
    if eq_str(&fmt, "PE/EXE") {
        let v = vec!["rcx", "rdx", "r8", "r9"];
        assert(v@.map_values(|a: &str| a@) =~= seq!["rcx"@, "rdx"@, "r8"@, "r9"@]);
        Some(v)
    } else {
        let v = vec!["rdi", "rsi", "rdx", "rcx", "r8", "r9"];
        assert(v@.map_values(|a: &str| a@) =~= seq!["rdi"@, "rsi"@, "rdx"@, "rcx"@, "r8"@, "r9"@]);
        Some(v)
    }
}

/// The lower-cased mnemonic and the operand text of an x86 instruction.
fn x86_parts(instruction: &Instruction) -> (r: (String, &str))
    ensures
        r.0@ == lower_seq(instruction@.mnemonic),
        r.1@ == instruction@.operands,
{
    match instruction {
        Instruction::X86(x) => (string_of(&lower_chars(&chars_of(x.mnemonic.as_str()))), x.operands.as_str()),
    }
}

/// The comma-separated operands, trimmed, empty ones dropped.
fn split_operands(operands: &str) -> (r: Vec<String>)
    ensures
        names_of(r@) == split_operands_spec(operands@),
{
    let s = chars_of(operands);
    let mut out: Vec<String> = Vec::new();
    let mut cur: Vec<char> = Vec::new();
    let ghost mut done: Seq<Seq<char>> = seq![];
    let mut i: usize = 0;
    while i < s.len()
        invariant
            s@ == operands@,
            i <= s@.len(),
            comma_pieces(s@.take(i as int)) == done.push(cur@),
            names_of(out@) == trimmed_nonempty(done),
        decreases s@.len() - i,
    {
        let c = s[i];
        proof {
            assert(s@.take(i + 1).drop_last() =~= s@.take(i as int));
            assert(s@.take(i + 1).last() == c);
        }
        if c == ',' {
            let t = trim_exec(&cur);
            let ghost before = out@;
            if t.len() > 0 {
                out.push(string_of(&t));
                proof {
                    assert(names_of(out@) =~= names_of(before).push(t@));
                }
            }
            proof {
                assert(done.push(cur@).drop_last() =~= done);
                done = done.push(cur@);
            }
            cur = Vec::new();
            proof {
                assert(comma_pieces(s@.take(i + 1)) =~= done.push(cur@));
            }
        } else {
            cur.push(c);
            proof {
                assert(comma_pieces(s@.take(i + 1)) =~= done.push(cur@));
            }
        }
        i = i + 1;
    }
    let t = trim_exec(&cur);
    let ghost before = out@;
    if t.len() > 0 {
        out.push(string_of(&t));
        proof {
            assert(names_of(out@) =~= names_of(before).push(t@));
        }
    }
    proof {
        assert(s@.take(s@.len() as int) =~= s@);
        assert(done.push(cur@).drop_last() =~= done);
    }
    out
}

/// The registers an instruction reads, in operand order.
fn read_registers(mnemonic: &str, operands: &Vec<String>) -> (r: Vec<String>)
    ensures
        names_of(r@) == read_registers_spec(mnemonic@, names_of(operands@)),
{
    let m = chars_of(mnemonic);
    let ghost ops = names_of(operands@);
    if eq_str(&m, "xor") && operands.len() == 2 {
        let a = chars_of(operands[0].as_str());
        let b = chars_of(operands[1].as_str());
        if eq_ignore_case_exec(&a, &b) {
            let r: Vec<String> = Vec::new();
            proof {
                assert(names_of(r@) =~= seq![]);
            }
            return r;
        }
    }
    let is_move = eq_str(&m, "mov") || eq_str(&m, "movzx") || eq_str(&m, "movsxd") || eq_str(
        &m,
        "lea",
    );
    let start: usize = if is_move && operands.len() >= 2 {
        1
    } else {
        0
    };
    let ghost rd = ops.subrange(start as int, ops.len() as int);
    proof {
        assert(start == 0 ==> rd =~= ops);
    }
    let mut out: Vec<String> = Vec::new();
    let mut k: usize = start;
    while k < operands.len()
        invariant
            start <= k <= operands@.len(),
            ops == names_of(operands@),
            rd == ops.subrange(start as int, ops.len() as int),
            names_of(out@) == registers_of(rd.take(k - start)),
        decreases operands@.len() - k,
    {
        let ghost before = out@;
        proof {
            assert(rd.take(k + 1 - start).drop_last() =~= rd.take(k - start));
            assert(rd.take(k + 1 - start).last() == operands@[k as int]@);
        }
        match register_in_operand(operands[k].as_str()) {
            Some(reg) => {
                out.push(reg);
                proof {
                    assert(names_of(out@) =~= names_of(before).push(out@[out@.len() - 1]@));
                }
            },
            None => {},
        }
        k = k + 1;
    }
    proof {
        assert(rd.take(operands@.len() - start) =~= rd);
    }
    out
}

fn writes_destination(mnemonic: &str) -> (r: bool)
    ensures
        r == writes_destination_spec(mnemonic@),
{
    let m = chars_of(mnemonic);
    eq_str(&m, "mov") || eq_str(&m, "movzx") || eq_str(&m, "movsxd") || eq_str(&m, "lea")
        || eq_str(&m, "xor") || eq_str(&m, "add") || eq_str(&m, "sub") || eq_str(&m, "and")
        || eq_str(&m, "or") || eq_str(&m, "imul")
}

/// The argument-class register an operand names, after size prefixes.
pub fn register_in_operand(operand: &str) -> (r: Option<String>)
    ensures
        match r {
            Some(s) => register_in_operand_spec(operand@) == Some(s@),
            None => register_in_operand_spec(operand@) is None,
        },
{
    let t = trim_exec(&chars_of(operand));
    let i1 = skip_repeated(&t, "byte ptr ", 0);
    let i2 = skip_repeated(&t, "word ptr ", i1);
    let i3 = skip_repeated(&t, "dword ptr ", i2);
    let i4 = skip_repeated(&t, "qword ptr ", i3);
    let n = t.len();
    let mut i = i4;
    while i < n && !is_word_char_exec(t[i])
        invariant
            i4 <= i <= n,
            n == t@.len(),
            first_word_from(t@, i4 as int) == first_word_from(t@, i as int),
        decreases n - i,
    {
        i = i + 1;
    }
    if i >= n {
        return None;
    }
    let mut j = i;
    while j < n && is_word_char_exec(t[j])
        invariant
            i <= j <= n,
            n == t@.len(),
            word_end(t@, i as int) == word_end(t@, j as int),
        decreases n - j,
    {
        j = j + 1;
    }
    let mut w: Vec<char> = Vec::new();
    let mut k = i;
    while k < j
        invariant
            i <= k <= j <= n,
            n == t@.len(),
            w@ == t@.subrange(i as int, k as int),
        decreases j - k,
    {
        w.push(t[k]);
        k = k + 1;
        proof {
            assert(w@ =~= t@.subrange(i as int, k as int));
        }
    }
    canonical_register(&string_of(&w))
}

fn is_word_char_exec(c: char) -> (r: bool)
    ensures
        r == is_word_char(c),
{
    ('a' <= c && c <= 'z') || ('A' <= c && c <= 'Z') || ('0' <= c && c <= '9') || c == '_'
}

/// The position after every repetition of `p` at position `i`.
fn skip_repeated(s: &Vec<char>, p: &str, i: usize) -> (r: usize)
    requires
        i <= s@.len(),
    ensures
        r as int == strip_from(s@, p@, i as int),
        i <= r <= s@.len(),
{
    let pv = chars_of(p);
    let mut k = i;
    while pv.len() > 0 && occurs_at_exec(s, &pv, k)
        invariant
            i <= k <= s@.len(),
            pv@ == p@,
            strip_from(s@, p@, i as int) == strip_from(s@, p@, k as int),
        decreases s@.len() - k,
    {
        assert(k + pv.len() <= s.len());
        k = k + pv.len();
    }
    k
}

/// The argument-class register of a register name, whatever its width or case.
pub fn canonical_register(value: &str) -> (r: Option<String>)
    ensures
        match r {
            Some(s) => arg_register_class(lower_seq(value@)) == Some(s@),
            None => arg_register_class(lower_seq(value@)) is None,
        },
{
    let lower = lower_chars(&chars_of(value));
    match register_class_exec(&lower) {
        Some(c) => {
            let cv = chars_of(c);
            if eq_str(&cv, "rax") || eq_str(&cv, "rbx") || eq_str(&cv, "rcx") || eq_str(&cv, "rdx")
                || eq_str(&cv, "rsi") || eq_str(&cv, "rdi") || eq_str(&cv, "r8") || eq_str(
                &cv,
                "r9",
            ) {
                Some(String::from_str(c))
            } else {
                None
            }
        },
        None => None,
    }
}

/// Returns `rax` (as a `u64`) wherever a bare `return` directly follows an
/// assignment to `rax`.
pub fn recover_rax_return(function: &mut Function)
    ensures
        final(function)@.name == old(function)@.name,
        final(function)@.parameters == old(function)@.parameters,
        final(function)@.is_variadic == old(function)@.is_variadic,
        final(function)@.body == rax_recovered_body(old(function)@.body),
        final(function)@.return_type == if has_rax_return(old(function)@.body) {
            TypeV::U64
        } else {
            old(function)@.return_type
        },
{
    let ghost b = old(function)@.body;
    let n = function.body.len();
    let mut idx: usize = 1;
    while idx < n
        invariant
            1 <= idx,
            n == b.len(),
            function.body@.len() == n,
            function@.name == old(function)@.name,
            function@.parameters == old(function)@.parameters,
            function@.is_variadic == old(function)@.is_variadic,
            forall|j: int|
                0 <= j < n ==> #[trigger] function@.body[j] == if j < idx {
                    rax_recovered_body(b)[j]
                } else {
                    b[j]
                },
            function@.return_type == if exists|i: int| i < idx && rax_return_at(b, i) {
                TypeV::U64
            } else {
                old(function)@.return_type
            },
        decreases n - idx,
    {
        let bare = matches!(function.body[idx], Statement::Return(None));
        proof {
            assert(function@.body[idx as int] == b[idx as int]);
            assert(stmt_is_bare_return(function@.body[idx as int]) == bare);
            assert(assigns_rax(function@.body[idx - 1]) == assigns_rax(b[idx - 1]));
        }
        let ghost old_body = function.body@;
        let ghost old_fv = function@;
        let hit = bare && previous_statement_assigns_rax(&function.body[idx - 1]);
        assert(hit == rax_return_at(b, idx as int));
        if hit {
            function.return_type = TypeInfo::U64;
            let rax = String::from_str("rax");
            let ret = Statement::Return(Some(Expression::Variable(rax)));
            proof {
                reveal_strlit("rax");
                assert(ret@ == StmtV::Return(Some(ExprV::Variable("rax"@))));
            }
            function.body.set(idx, ret);
            proof {
                assert(rax_return_at(b, idx as int));
                assert(function.body@ == old_body.update(idx as int, ret));
                assert(stmt_v(&function.body@[idx as int]) == StmtV::Return(Some(ExprV::Variable("rax"@))));
            }
        }
        proof {
            assert forall|j: int| 0 <= j < n implies #[trigger] function@.body[j] == if j < idx + 1 {
                rax_recovered_body(b)[j]
            } else {
                b[j]
            } by {
                assert(function@.body[j] == stmt_v(&function.body@[j]));
                if j != idx || !hit {
                    assert(function.body@[j] == old_body[j]);
                    assert(old_fv.body[j] == stmt_v(&old_body[j]));
                    assert(old_fv.body[j] == if j < idx {
                        rax_recovered_body(b)[j]
                    } else {
                        b[j]
                    });
                    if j == idx {
                        assert(!rax_return_at(b, j));
                        assert(rax_recovered_body(b)[j] == b[j]);
                    }
                } else {
                    assert(rax_return_at(b, j));
                }
            }
        }
        idx = idx + 1;
    }
    proof {
        assert(function@.body =~= rax_recovered_body(b));
        if has_rax_return(b) {
            let i = choose|i: int| rax_return_at(b, i);
            assert(i < idx);
        }
    }
}

pub open spec fn stmt_is_bare_return(s: StmtV) -> bool {
    s == StmtV::Return(None)
}

/// Whether a statement assigns to the variable `rax`.
fn previous_statement_assigns_rax(statement: &Statement) -> (r: bool)
    ensures
        r == assigns_rax(statement@),
{
    proof {
        reveal_with_fuel(crate::decompiler::ast::expr_v, 2);
    }
    match statement {
        Statement::Expression(Expression::Assignment { target, .. }) => match &**target {
            Expression::Variable(name) => eq_str(&chars_of(name.as_str()), "rax"),
            _ => false,
        },
        _ => false,
    }
}

} // verus!
