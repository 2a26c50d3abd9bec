//! Function detection.
//!
//! Function starts are found from seeds: the entry point, export addresses,
//! the targets of calls and of tail jumps, and instructions whose bytes begin
//! with a known prologue. The instruction stream is then cut at every start.

use crate::binary::parser::{ExportInfo, ImportInfo};
use crate::disasm::control_flow::{stream_view, Instruction};
use crate::disasm::x86::{is_call_mnemonic, is_unconditional_jump_mnemonic, X86InstructionV};
use crate::text::{chars_of, eq_str, extend_chars, hex_text, push_hex, string_of};
use std::collections::HashMap;
use vstd::prelude::*;

verus! {

broadcast use vstd::std_specs::hash::group_hash_axioms;

/// Function information
#[derive(Debug, Clone)]
pub struct FunctionInfo {
    pub name: String,
    pub address: u64,
    pub size: usize,
    pub instructions: Vec<Instruction>,
    pub is_import: bool,
    pub is_export: bool,
}

/// Inputs to the function detection pass.
pub struct FunctionDetectionInputs<'a> {
    pub instructions: &'a [Instruction],
    pub entry_point: u64,
    pub exports: &'a [ExportInfo],
    pub imports: &'a [ImportInfo],
    pub architecture: &'a str,
}

// ---------------------------------------------------------------------------
// Prologue tables
// ---------------------------------------------------------------------------

/// `push ebp; mov ebp, esp`
pub open spec fn x86_prologue_table() -> Seq<Seq<u8>> {
    seq![seq![0x55u8, 0x8Bu8, 0xECu8]]
}

/// `push rbp; mov rbp, rsp`, `endbr64`, `sub rsp, imm8`, `sub rsp, imm32`
pub open spec fn x64_prologue_table() -> Seq<Seq<u8>> {
    seq![
        seq![0x55u8, 0x48u8, 0x89u8, 0xE5u8],
        seq![0xF3u8, 0x0Fu8, 0x1Eu8, 0xFAu8],
        seq![0x48u8, 0x83u8, 0xECu8],
        seq![0x48u8, 0x81u8, 0xECu8],
    ]
}

/// `push {r7, lr}`
pub open spec fn arm_prologue_table() -> Seq<Seq<u8>> {
    seq![seq![0x70u8, 0xB5u8]]
}

/// `stp x29, x30, [sp, #-16]!` and `sub sp, sp, #16`
pub open spec fn arm64_prologue_table() -> Seq<Seq<u8>> {
    seq![seq![0xFDu8, 0x03u8, 0x00u8, 0xA9u8], seq![0xFFu8, 0x43u8, 0x00u8, 0xD1u8]]
}

/// The prologue patterns of an architecture name; `None` for an unknown one.
pub open spec fn prologue_table(arch: Seq<char>) -> Option<Seq<Seq<u8>>> {
    if arch == "x86"@ {
        Some(x86_prologue_table())
    } else if arch == "x64"@ {
        Some(x64_prologue_table())
    } else if arch == "ARM"@ {
        Some(arm_prologue_table())
    } else if arch == "ARM64"@ {
        Some(arm64_prologue_table())
    } else {
        None
    }
}

pub open spec fn bytes_start_with(b: Seq<u8>, p: Seq<u8>) -> bool {
    p.len() <= b.len() && b.subrange(0, p.len() as int) == p
}

/// Whether instruction bytes begin with one of the architecture's prologues.
pub open spec fn is_prologue(bytes: Seq<u8>, arch: Seq<char>) -> bool {
    &&& prologue_table(arch) is Some
    &&& exists|k: int|
        0 <= k < prologue_table(arch).unwrap().len() && bytes_start_with(
            bytes,
            #[trigger] prologue_table(arch).unwrap()[k],
        )
}

pub open spec fn starts4(b: Seq<u8>, x0: u8, x1: u8, x2: u8, x3: u8) -> bool {
    b.len() >= 4 && b[0] == x0 && b[1] == x1 && b[2] == x2 && b[3] == x3
}

pub open spec fn starts3(b: Seq<u8>, x0: u8, x1: u8, x2: u8) -> bool {
    b.len() >= 3 && b[0] == x0 && b[1] == x1 && b[2] == x2
}

proof fn lemma_table_match(b: Seq<u8>, t: Seq<Seq<u8>>)
    ensures
        (exists|k: int| 0 <= k < t.len() && bytes_start_with(b, #[trigger] t[k])) <==> exists|k: int|
            0 <= k < t.len() && t[k].len() <= b.len() && forall|i: int|
                0 <= i < t[k].len() ==> b[i] == #[trigger] t[k][i],
{
    if exists|k: int| 0 <= k < t.len() && bytes_start_with(b, #[trigger] t[k]) {
        let k = choose|k: int| 0 <= k < t.len() && bytes_start_with(b, #[trigger] t[k]);
        assert forall|i: int| 0 <= i < t[k].len() implies b[i] == #[trigger] t[k][i] by {
            assert(b.subrange(0, t[k].len() as int)[i] == b[i]);
        }
    }
    if exists|k: int|
        0 <= k < t.len() && t[k].len() <= b.len() && forall|i: int|
            0 <= i < t[k].len() ==> b[i] == #[trigger] t[k][i] {
        let k = choose|k: int|
            0 <= k < t.len() && t[k].len() <= b.len() && forall|i: int|
                0 <= i < t[k].len() ==> b[i] == #[trigger] t[k][i];
        assert(b.subrange(0, t[k].len() as int) =~= t[k]);
        assert(bytes_start_with(b, t[k]));
    }
}

/// Law: the instructions that start a function by their bytes alone are,
/// on x64, those beginning `push rbp; mov rbp, rsp` (55 48 89 E5), `endbr64`
/// (F3 0F 1E FA), `sub rsp, imm8` (48 83 EC) or `sub rsp, imm32` (48 81 EC);
/// on x86, `push ebp; mov ebp, esp` (55 8B EC); on ARM, `push {r7, lr}`
/// (70 B5); on ARM64, `stp x29, x30, [sp, #-16]!` (FD 03 00 A9) or
/// `sub sp, sp, #16` (FF 43 00 D1).
pub proof fn lemma_prologue_bytes(b: Seq<u8>)
    ensures
        is_prologue(b, "x64"@) <==> (starts4(b, 0x55, 0x48, 0x89, 0xE5) || starts4(b, 0xF3, 0x0F, 0x1E, 0xFA)
            || starts3(b, 0x48, 0x83, 0xEC) || starts3(b, 0x48, 0x81, 0xEC)),
        is_prologue(b, "x86"@) <==> starts3(b, 0x55, 0x8B, 0xEC),
        is_prologue(b, "ARM"@) <==> (b.len() >= 2 && b[0] == 0x70 && b[1] == 0xB5),
        is_prologue(b, "ARM64"@) <==> (starts4(b, 0xFD, 0x03, 0x00, 0xA9) || starts4(b, 0xFF, 0x43, 0x00, 0xD1)),
{
    reveal_strlit("x86");
    reveal_strlit("x64");
    reveal_strlit("ARM");
    reveal_strlit("ARM64");
    assert("x64"@[1] != "x86"@[1]);
    assert("x64"@.len() != "ARM64"@.len());
    assert("x86"@.len() != "ARM64"@.len());
    assert("x64"@[0] != "ARM"@[0]);
    assert("x86"@[0] != "ARM"@[0]);
    assert("ARM"@.len() != "ARM64"@.len());
    assert(prologue_table("x64"@) == Some(x64_prologue_table()));
    assert(prologue_table("x86"@) == Some(x86_prologue_table()));
    assert(prologue_table("ARM"@) == Some(arm_prologue_table()));
    assert(prologue_table("ARM64"@) == Some(arm64_prologue_table()));
    lemma_table_match(b, x64_prologue_table());
    lemma_table_match(b, x86_prologue_table());
    lemma_table_match(b, arm_prologue_table());
    lemma_table_match(b, arm64_prologue_table());
    let t = x64_prologue_table();
    let pt = prologue_table("x64"@).unwrap();
    assert(pt == t);
    if starts4(b, 0x55, 0x48, 0x89, 0xE5) {
        assert(b.subrange(0, 4) =~= pt[0]);
        assert(bytes_start_with(b, pt[0]));
    }
    if starts4(b, 0xF3, 0x0F, 0x1E, 0xFA) {
        assert(b.subrange(0, 4) =~= pt[1]);
        assert(bytes_start_with(b, pt[1]));
    }
    if starts3(b, 0x48, 0x83, 0xEC) {
        assert(b.subrange(0, 3) =~= pt[2]);
        assert(bytes_start_with(b, pt[2]));
    }
    if starts3(b, 0x48, 0x81, 0xEC) {
        assert(b.subrange(0, 3) =~= pt[3]);
        assert(bytes_start_with(b, pt[3]));
    }
    if is_prologue(b, "x64"@) {
        let k = choose|k: int| 0 <= k < pt.len() && bytes_start_with(b, #[trigger] pt[k]);
        let p = pt[k];
        assert(b.subrange(0, p.len() as int) == p);
        assert(b[0] == b.subrange(0, p.len() as int)[0]);
        assert(b[1] == b.subrange(0, p.len() as int)[1]);
        assert(b[2] == b.subrange(0, p.len() as int)[2]);
        if k < 2 {
            assert(b[3] == b.subrange(0, p.len() as int)[3]);
        }
    }
    let t86 = x86_prologue_table();
    if starts3(b, 0x55, 0x8B, 0xEC) {
        assert(forall|i: int| 0 <= i < t86[0].len() ==> b[i] == #[trigger] t86[0][i]);
    }
    if exists|k: int|
        0 <= k < t86.len() && t86[k].len() <= b.len() && forall|i: int|
            0 <= i < t86[k].len() ==> b[i] == #[trigger] t86[k][i] {
        let k = choose|k: int|
            0 <= k < t86.len() && t86[k].len() <= b.len() && forall|i: int|
                0 <= i < t86[k].len() ==> b[i] == #[trigger] t86[k][i];
        assert(b[0] == t86[k][0] && b[1] == t86[k][1] && b[2] == t86[k][2]);
    }
    let ta = arm_prologue_table();
    if b.len() >= 2 && b[0] == 0x70 && b[1] == 0xB5 {
        assert(forall|i: int| 0 <= i < ta[0].len() ==> b[i] == #[trigger] ta[0][i]);
    }
    if exists|k: int|
        0 <= k < ta.len() && ta[k].len() <= b.len() && forall|i: int|
            0 <= i < ta[k].len() ==> b[i] == #[trigger] ta[k][i] {
        let k = choose|k: int|
            0 <= k < ta.len() && ta[k].len() <= b.len() && forall|i: int|
                0 <= i < ta[k].len() ==> b[i] == #[trigger] ta[k][i];
        assert(b[0] == ta[k][0] && b[1] == ta[k][1]);
    }
    let t64 = arm64_prologue_table();
    if starts4(b, 0xFD, 0x03, 0x00, 0xA9) {
        assert(forall|i: int| 0 <= i < t64[0].len() ==> b[i] == #[trigger] t64[0][i]);
    }
    if starts4(b, 0xFF, 0x43, 0x00, 0xD1) {
        assert(forall|i: int| 0 <= i < t64[1].len() ==> b[i] == #[trigger] t64[1][i]);
    }
    if exists|k: int|
        0 <= k < t64.len() && t64[k].len() <= b.len() && forall|i: int|
            0 <= i < t64[k].len() ==> b[i] == #[trigger] t64[k][i] {
        let k = choose|k: int|
            0 <= k < t64.len() && t64[k].len() <= b.len() && forall|i: int|
                0 <= i < t64[k].len() ==> b[i] == #[trigger] t64[k][i];
        assert(b[0] == t64[k][0] && b[1] == t64[k][1] && b[2] == t64[k][2] && b[3] == t64[k][3]);
    }
}

/// Law: on an architecture other than x86, x64, ARM and ARM64 no
/// instruction is taken for a function start by its bytes alone.
pub proof fn lemma_no_prologue_elsewhere(b: Seq<u8>, arch: Seq<char>)
    requires
        arch != "x86"@,
        arch != "x64"@,
        arch != "ARM"@,
        arch != "ARM64"@,
    ensures
        !is_prologue(b, arch),
{
}

pub open spec fn bytes_list_v(v: Seq<Vec<u8>>) -> Seq<Seq<u8>> {
    v.map_values(|b: Vec<u8>| b@)
}

// ---------------------------------------------------------------------------
// Addresses and seeds
// ---------------------------------------------------------------------------

/// `j` is the last instruction of the stream at its address.
pub open spec fn is_last_occurrence(s: Seq<Instruction>, j: int) -> bool {
    &&& 0 <= j < s.len()
    &&& forall|k: int| j < k < s.len() ==> s[k]@.address != s[j]@.address
}

/// `j` is the last instruction at address `a`.
pub open spec fn index_of_address(s: Seq<Instruction>, a: u64, j: int) -> bool {
    is_last_occurrence(s, j) && s[j]@.address == a
}

pub open spec fn has_address(s: Seq<Instruction>, a: u64) -> bool {
    exists|j: int| 0 <= j < s.len() && #[trigger] s[j]@.address == a
}

/// The index of the last instruction at address `a` (meaningful when one exists).
pub open spec fn last_index(s: Seq<Instruction>, a: u64) -> int {
    choose|j: int| index_of_address(s, a, j)
}

/// An address-to-index map that sends each address to its last instruction.
pub open spec fn address_index_ok(m: Map<u64, usize>, s: Seq<Instruction>) -> bool {
    &&& forall|a: u64| m.contains_key(a) <==> has_address(s, a)
    &&& forall|a: u64| #[trigger] m.contains_key(a) ==> index_of_address(s, a, m[a] as int)
}

pub open spec fn sat_add(a: u64, b: u64) -> u64 {
    if a + b > u64::MAX {
        u64::MAX
    } else {
        (a + b) as u64
    }
}

/// An unconditional jump whose target is the very next instruction of the
/// stream, while that instruction does not directly follow the jump's bytes.
pub open spec fn is_tail_jump(s: Seq<Instruction>, i: int) -> bool {
    &&& 0 <= i < s.len()
    &&& is_unconditional_jump_mnemonic(s[i]@.mnemonic)
    &&& match s[i]@.near_branch_target {
        Some(t) => index_of_address(s, t, i + 1) && s[i + 1]@.address != sat_add(
            s[i]@.address,
            s[i]@.length as u64,
        ),
        None => false,
    }
}

/// Instruction `i` is a call or tail jump whose target is `a`.
pub open spec fn is_branch_seed(s: Seq<Instruction>, i: int, a: u64) -> bool {
    &&& 0 <= i < s.len()
    &&& is_call_mnemonic(s[i]@.mnemonic) || is_tail_jump(s, i)
    &&& s[i]@.near_branch_target == Some(a)
}

pub open spec fn seeded_by_entry(entry: u64, a: u64) -> bool {
    entry != 0 && a == entry
}

pub open spec fn seeded_by_exports(exports: Seq<ExportInfo>, a: u64, k: int) -> bool {
    a != 0 && exists|e: int| 0 <= e < k && #[trigger] exports[e].address == a
}

pub open spec fn seeded_by_branches(s: Seq<Instruction>, a: u64, k: int) -> bool {
    exists|i: int| 0 <= i < k && #[trigger] is_branch_seed(s, i, a)
}

pub open spec fn prologue_at(s: Seq<Instruction>, arch: Seq<char>, i: int) -> bool {
    0 <= i < s.len() && is_prologue(s[i]@.bytes, arch)
}

pub open spec fn seeded_by_prologues(s: Seq<Instruction>, arch: Seq<char>, a: u64, k: int) -> bool {
    exists|i: int| 0 <= i < k && #[trigger] prologue_at(s, arch, i) && s[i]@.address == a
}

/// Whether an address is a seed: the entry point (when nonzero), a nonzero
/// export address, a call or tail-jump target, or the address of an
/// instruction that begins with a prologue.
pub open spec fn is_seed(
    s: Seq<Instruction>,
    entry: u64,
    exports: Seq<ExportInfo>,
    arch: Seq<char>,
    a: u64,
) -> bool {
    ||| seeded_by_entry(entry, a)
    ||| seeded_by_exports(exports, a, exports.len() as int)
    ||| seeded_by_branches(s, a, s.len() as int)
    ||| seeded_by_prologues(s, arch, a, s.len() as int)
}

/// A function starts at instruction `j`: the last instruction at a seed address.
pub open spec fn is_function_start(
    s: Seq<Instruction>,
    entry: u64,
    exports: Seq<ExportInfo>,
    arch: Seq<char>,
    j: int,
) -> bool {
    is_last_occurrence(s, j) && is_seed(s, entry, exports, arch, s[j]@.address)
}

/// The sum of instruction lengths over `from..to`.
pub open spec fn length_sum(s: Seq<Instruction>, from: int, to: int) -> nat
    decreases to - from,
{
    if to <= from {
        0
    } else {
        length_sum(s, from, to - 1) + (s[to - 1]@.length as nat)
    }
}

/// The name of the first export at `a` with a nonempty name, from index `k` on.
pub open spec fn export_name_from(exports: Seq<ExportInfo>, a: u64, k: int) -> Option<Seq<char>>
    decreases exports.len() - k,
{
    if 0 <= k < exports.len() {
        if exports[k].address == a && exports[k].name@.len() > 0 {
            Some(exports[k].name@)
        } else {
            export_name_from(exports, a, k + 1)
        }
    } else {
        None
    }
}

/// A detected function's name: its export name, else `sub_` and its address in
/// upper-case hexadecimal.
pub open spec fn function_name(exports: Seq<ExportInfo>, a: u64) -> Seq<char> {
    match export_name_from(exports, a, 0) {
        Some(n) => n,
        None => "sub_"@ + hex_text(a as nat, true),
    }
}

pub open spec fn is_export_address(exports: Seq<ExportInfo>, a: u64) -> bool {
    seeded_by_exports(exports, a, exports.len() as int)
}

/// Detection is defined on these inputs: the function starts, taken in stream
/// order, have increasing addresses, and the instruction lengths sum within
/// `usize`.
pub open spec fn detection_defined(
    s: Seq<Instruction>,
    entry: u64,
    exports: Seq<ExportInfo>,
    arch: Seq<char>,
) -> bool {
    &&& forall|j1: int, j2: int|
        #![trigger is_function_start(s, entry, exports, arch, j1), is_function_start(s, entry, exports, arch, j2)]
        0 <= j1 < j2 < s.len() && is_function_start(s, entry, exports, arch, j1)
            && is_function_start(s, entry, exports, arch, j2) ==> s[j1]@.address < s[j2]@.address
    &&& length_sum(s, 0, s.len() as int) <= usize::MAX
}

/// Function `f` owns the instructions `start..end` of the stream.
pub open spec fn describes_function(
    f: FunctionInfo,
    s: Seq<Instruction>,
    exports: Seq<ExportInfo>,
    start: int,
    end: int,
) -> bool {
    &&& f.instructions@.len() == end - start
    &&& forall|t: int| 0 <= t < end - start ==> #[trigger] f.instructions@[t]@ == s[start + t]@
    &&& f.size == length_sum(s, start, end)
    &&& f.name@ == function_name(exports, f.address)
    &&& !f.is_import
    &&& f.is_export == is_export_address(exports, f.address)
}

/// Where the `k`-th function of `r` ends: at the next one's start, or at the
/// end of the stream.
pub open spec fn function_end(s: Seq<Instruction>, r: Seq<FunctionInfo>, k: int) -> int {
    if k + 1 < r.len() {
        last_index(s, r[k + 1].address)
    } else {
        s.len() as int
    }
}

/// The result of detection: one function per start, in stream order, each
/// owning the instructions up to the next start.
pub open spec fn detection_result(
    r: Seq<FunctionInfo>,
    s: Seq<Instruction>,
    entry: u64,
    exports: Seq<ExportInfo>,
    arch: Seq<char>,
) -> bool {
    &&& forall|k: int|
        #![trigger r[k]]
        0 <= k < r.len() ==> is_function_start(s, entry, exports, arch, last_index(s, r[k].address))
            && s[last_index(s, r[k].address)]@.address == r[k].address
    &&& forall|k1: int, k2: int|
        #![trigger r[k1], r[k2]]
        0 <= k1 < k2 < r.len() ==> last_index(s, r[k1].address) < last_index(s, r[k2].address)
            && r[k1].address < r[k2].address
    &&& forall|j: int|
        #[trigger] is_function_start(s, entry, exports, arch, j) ==> exists|k: int|
            0 <= k < r.len() && #[trigger] r[k].address == s[j]@.address
    &&& forall|k: int|
        #![trigger r[k]]
        0 <= k < r.len() ==> describes_function(
            r[k],
            s,
            exports,
            last_index(s, r[k].address),
            function_end(s, r, k),
        )
}

/// The instructions of the functions from the `k`-th on, one function after
/// another.
pub open spec fn functions_stream(r: Seq<FunctionInfo>, k: int) -> Seq<X86InstructionV>
    decreases r.len() - k,
{
    if k < 0 || k >= r.len() {
        seq![]
    } else {
        stream_view(r[k].instructions@) + functions_stream(r, k + 1)
    }
}

proof fn lemma_functions_stream_suffix(
    r: Seq<FunctionInfo>,
    s: Seq<Instruction>,
    entry: u64,
    exports: Seq<ExportInfo>,
    arch: Seq<char>,
    k: int,
)
    requires
        detection_result(r, s, entry, exports, arch),
        0 <= k < r.len(),
    ensures
        functions_stream(r, k) == stream_view(s).subrange(last_index(s, r[k].address), s.len() as int),
    decreases r.len() - k,
{
    let f = r[k];
    let a = last_index(s, f.address);
    let e = function_end(s, r, k);
    assert(is_function_start(s, entry, exports, arch, a));
    assert(describes_function(f, s, exports, a, e));
    assert(stream_view(f.instructions@) =~= stream_view(s).subrange(a, e));
    assert(functions_stream(r, k) == stream_view(f.instructions@) + functions_stream(r, k + 1));
    if k + 1 < r.len() {
        lemma_functions_stream_suffix(r, s, entry, exports, arch, k + 1);
        assert(e == last_index(s, r[k + 1].address));
        assert(is_function_start(s, entry, exports, arch, e));
        assert(a < e);
        assert(functions_stream(r, k + 1) == stream_view(s).subrange(e, s.len() as int));
        assert(stream_view(s).subrange(a, e) + stream_view(s).subrange(e, s.len() as int) =~= stream_view(
            s,
        ).subrange(a, s.len() as int));
    } else {
        assert(functions_stream(r, k + 1) =~= Seq::<X86InstructionV>::empty());
        assert(e == s.len());
        assert(stream_view(s).subrange(a, e) + Seq::<X86InstructionV>::empty() =~= stream_view(
            s,
        ).subrange(a, s.len() as int));
    }
}

/// Law: the detected functions cover the stream from the first function's
/// start to its end: their instructions, one function after another, are
/// exactly that part of the stream, in order.
pub proof fn lemma_detected_functions_cover_stream(
    r: Seq<FunctionInfo>,
    s: Seq<Instruction>,
    entry: u64,
    exports: Seq<ExportInfo>,
    arch: Seq<char>,
)
    requires
        detection_result(r, s, entry, exports, arch),
        r.len() > 0,
    ensures
        functions_stream(r, 0) == stream_view(s).subrange(last_index(s, r[0].address), s.len() as int),
{
    lemma_functions_stream_suffix(r, s, entry, exports, arch, 0);
}

// ---------------------------------------------------------------------------
// Lemmas
// ---------------------------------------------------------------------------

/// Some instruction at `a` is the last one there.
proof fn lemma_last_occurrence_exists(s: Seq<Instruction>, a: u64, j: int)
    requires
        0 <= j < s.len(),
        s[j]@.address == a,
    ensures
        exists|k: int| #[trigger] index_of_address(s, a, k),
    decreases s.len() - j,
{
    if exists|k: int| j < k < s.len() && #[trigger] s[k]@.address == a {
        let k = choose|k: int| j < k < s.len() && #[trigger] s[k]@.address == a;
        lemma_last_occurrence_exists(s, a, k);
    } else {
        assert(index_of_address(s, a, j));
    }
}

/// Law: the detected functions start exactly at the seed addresses that
/// some instruction of the stream has: the entry point, export addresses,
/// call and tail-jump targets, and prologue addresses.
pub proof fn lemma_detected_starts_are_seeds(
    r: Seq<FunctionInfo>,
    s: Seq<Instruction>,
    entry: u64,
    exports: Seq<ExportInfo>,
    arch: Seq<char>,
    a: u64,
)
    requires
        detection_result(r, s, entry, exports, arch),
    ensures
        (exists|k: int| 0 <= k < r.len() && #[trigger] r[k].address == a) <==> (has_address(s, a)
            && is_seed(s, entry, exports, arch, a)),
{
    if exists|k: int| 0 <= k < r.len() && #[trigger] r[k].address == a {
        let k = choose|k: int| 0 <= k < r.len() && #[trigger] r[k].address == a;
        let j = last_index(s, r[k].address);
        assert(is_function_start(s, entry, exports, arch, j));
        assert(s[j]@.address == a);
    }
    if has_address(s, a) && is_seed(s, entry, exports, arch, a) {
        let j = choose|j: int| 0 <= j < s.len() && #[trigger] s[j]@.address == a;
        lemma_last_occurrence_exists(s, a, j);
        let l = choose|l: int| #[trigger] index_of_address(s, a, l);
        assert(is_function_start(s, entry, exports, arch, l));
        let k = choose|k: int| 0 <= k < r.len() && #[trigger] r[k].address == s[l]@.address;
        assert(r[k].address == a);
    }
}

proof fn lemma_last_index(s: Seq<Instruction>, a: u64, j: int)
    requires
        index_of_address(s, a, j),
    ensures
        last_index(s, a) == j,
{
    let c = last_index(s, a);
    assert(index_of_address(s, a, c));
    if c < j {
        assert(s[j]@.address != s[c]@.address);
    } else if c > j {
        assert(s[c]@.address != s[j]@.address);
    }
}

proof fn lemma_length_sum_from(s: Seq<Instruction>, a: int, b: int)
    requires
        0 <= a <= b <= s.len(),
    ensures
        length_sum(s, a, b) <= length_sum(s, 0, b),
    decreases b - a,
{
    if a < b {
        lemma_length_sum_from(s, a, b - 1);
    }
}

proof fn lemma_length_sum_to(s: Seq<Instruction>, b: int, n: int)
    requires
        0 <= b <= n <= s.len(),
    ensures
        length_sum(s, 0, b) <= length_sum(s, 0, n),
    decreases n - b,
{
    if b < n {
        lemma_length_sum_to(s, b, n - 1);
    }
}

// ---------------------------------------------------------------------------
// The detector
// ---------------------------------------------------------------------------

/// Function detector.
///
/// Uses a seed-based discovery approach: the entry point, export addresses,
/// call and tail-jump targets, and prologue byte patterns as a fallback for
/// stripped code.
pub struct FunctionDetector {
    x86_prologues: Vec<Vec<u8>>,
    x64_prologues: Vec<Vec<u8>>,
    arm_prologues: Vec<Vec<u8>>,
    arm64_prologues: Vec<Vec<u8>>,
}

impl FunctionDetector {
    /// The prologue patterns the detector matches for an architecture name.
    pub closed spec fn prologues(&self, arch: Seq<char>) -> Option<Seq<Seq<u8>>> {
        if arch == "x86"@ {
            Some(bytes_list_v(self.x86_prologues@))
        } else if arch == "x64"@ {
            Some(bytes_list_v(self.x64_prologues@))
        } else if arch == "ARM"@ {
            Some(bytes_list_v(self.arm_prologues@))
        } else if arch == "ARM64"@ {
            Some(bytes_list_v(self.arm64_prologues@))
        } else {
            None
        }
    }

    #[verifier::type_invariant]
    closed spec fn standard_tables(&self) -> bool {
        &&& bytes_list_v(self.x86_prologues@) == x86_prologue_table()
        &&& bytes_list_v(self.x64_prologues@) == x64_prologue_table()
        &&& bytes_list_v(self.arm_prologues@) == arm_prologue_table()
        &&& bytes_list_v(self.arm64_prologues@) == arm64_prologue_table()
    }

    pub fn new() -> (r: Self)
        ensures
            forall|arch: Seq<char>| r.prologues(arch) == prologue_table(arch),
    {
        let x86: Vec<Vec<u8>> = vec![vec![0x55u8, 0x8Bu8, 0xECu8]];
        let x64: Vec<Vec<u8>> = vec![
            vec![0x55u8, 0x48u8, 0x89u8, 0xE5u8],
            vec![0xF3u8, 0x0Fu8, 0x1Eu8, 0xFAu8],
            vec![0x48u8, 0x83u8, 0xECu8],
            vec![0x48u8, 0x81u8, 0xECu8],
        ];
        let arm: Vec<Vec<u8>> = vec![vec![0x70u8, 0xB5u8]];
        let arm64: Vec<Vec<u8>> = vec![
            vec![0xFDu8, 0x03u8, 0x00u8, 0xA9u8],
            vec![0xFFu8, 0x43u8, 0x00u8, 0xD1u8],
        ];
        proof {
            assert(bytes_list_v(x86@) =~= x86_prologue_table());
            assert(bytes_list_v(x64@) =~= x64_prologue_table());
            assert(bytes_list_v(arm@) =~= arm_prologue_table());
            assert(bytes_list_v(arm64@) =~= arm64_prologue_table());
        }
        FunctionDetector {
            x86_prologues: x86,
            x64_prologues: x64,
            arm_prologues: arm,
            arm64_prologues: arm64,
        }
    }

    /// Primary detection entry point.
    pub fn detect(&self, inputs: FunctionDetectionInputs<'_>) -> (r: Vec<FunctionInfo>)
        requires
            detection_defined(
                inputs.instructions@,
                inputs.entry_point,
                inputs.exports@,
                inputs.architecture@,
            ),
        ensures
            detection_result(
                r@,
                inputs.instructions@,
                inputs.entry_point,
                inputs.exports@,
                inputs.architecture@,
            ),
    {
        let instructions = inputs.instructions;
        let exports = inputs.exports;
        let ghost s = instructions@;
        let ghost entry = inputs.entry_point;
        let ghost xs = exports@;
        let ghost arch = inputs.architecture@;
        let n = instructions.len();
        if n == 0 {
            let r: Vec<FunctionInfo> = Vec::new();
            return r;
        }
        // 1. Address -> index of the last instruction at that address.

        let index = address_index(instructions);
        // 2. Mark the instructions where a function starts.
        let mut starts: Vec<bool> = Vec::new();
        let mut i: usize = 0;
        while i < n
            invariant
                n == s.len(),
                i <= n,
                starts@.len() == i,
                forall|j: int| 0 <= j < i ==> !starts@[j],
            decreases n - i,
        {
            starts.push(false);
            i = i + 1;
        }
        if inputs.entry_point != 0 {
            mark_start(&mut starts, &index, instructions, inputs.entry_point);
        }
        let mut e: usize = 0;
        while e < exports.len()
            invariant
                n == s.len(),
                s == instructions@,
                xs == exports@,
                address_index_ok(index@, s),
                starts@.len() == n,
                e <= exports.len(),
                forall|j: int|
                    0 <= j < n ==> #[trigger] starts@[j] == (is_last_occurrence(s, j) && (
                    seeded_by_entry(entry, s[j]@.address) || seeded_by_exports(
                        xs,
                        s[j]@.address,
                        e as int,
                    ))),
            decreases exports.len() - e,
        {
            let a = exports[e].address;
            if a != 0 {
                mark_start(&mut starts, &index, instructions, a);
            }
            proof {
                assert forall|j: int| 0 <= j < n implies #[trigger] starts@[j] == (
                is_last_occurrence(s, j) && (seeded_by_entry(entry, s[j]@.address)
                    || seeded_by_exports(xs, s[j]@.address, e + 1))) by {
                    if s[j]@.address == a && a != 0 {
                        assert(xs[e as int].address == s[j]@.address);
                    }
                    if seeded_by_exports(xs, s[j]@.address, e + 1) && !seeded_by_exports(
                        xs,
                        s[j]@.address,
                        e as int,
                    ) {
                        let w = choose|w: int|
                            0 <= w < e + 1 && #[trigger] xs[w].address == s[j]@.address;
                        assert(w == e);
                    }
                }
            }
            e = e + 1;
        }
        let mut idx: usize = 0;
        while idx < n
            invariant
                n == s.len(),
                s == instructions@,
                xs == exports@,
                address_index_ok(index@, s),
                starts@.len() == n,
                idx <= n,
                forall|j: int|
                    0 <= j < n ==> #[trigger] starts@[j] == (is_last_occurrence(s, j) && (
                    seeded_by_entry(entry, s[j]@.address) || seeded_by_exports(
                        xs,
                        s[j]@.address,
                        xs.len() as int,
                    ) || seeded_by_branches(s, s[j]@.address, idx as int))),
            decreases n - idx,
        {
            let instr = &instructions[idx];
            let seeds_target = instr.is_call() || looks_like_tail_jump(
                idx,
                instr,
                instructions,
                &index,
            );
            let target = branch_target(instr);
            if seeds_target {
                match target {
                    Some(t) => {
                        mark_start(&mut starts, &index, instructions, t);
                    },
                    None => {},
                }
            }
            proof {
                assert forall|j: int| 0 <= j < n implies #[trigger] starts@[j] == (
                is_last_occurrence(s, j) && (seeded_by_entry(entry, s[j]@.address)
                    || seeded_by_exports(xs, s[j]@.address, xs.len() as int)
                    || seeded_by_branches(s, s[j]@.address, idx + 1))) by {
                    if seeds_target && target == Some(s[j]@.address) {
                        assert(is_branch_seed(s, idx as int, s[j]@.address));
                    }
                    if seeded_by_branches(s, s[j]@.address, idx + 1) && !seeded_by_branches(
                        s,
                        s[j]@.address,
                        idx as int,
                    ) {
                        let w = choose|w: int|
                            0 <= w < idx + 1 && #[trigger] is_branch_seed(s, w, s[j]@.address);
                        assert(w == idx);
                    }
                }
            }
            idx = idx + 1;
        }
        let mut p: usize = 0;
        while p < n
            invariant
                n == s.len(),
                s == instructions@,
                xs == exports@,
                arch == inputs.architecture@,
                address_index_ok(index@, s),
                starts@.len() == n,
                p <= n,
                forall|j: int|
                    0 <= j < n ==> #[trigger] starts@[j] == (is_last_occurrence(s, j) && (
                    seeded_by_entry(entry, s[j]@.address) || seeded_by_exports(
                        xs,
                        s[j]@.address,
                        xs.len() as int,
                    ) || seeded_by_branches(s, s[j]@.address, n as int) || seeded_by_prologues(
                        s,
                        arch,
                        s[j]@.address,
                        p as int,
                    ))),
            decreases n - p,
        {
            let instr = &instructions[p];
            let hit = self.is_function_prologue(instr, inputs.architecture);
            if hit {
                mark_start(&mut starts, &index, instructions, instr.address());
            }
            proof {
                assert forall|j: int| 0 <= j < n implies #[trigger] starts@[j] == (
                is_last_occurrence(s, j) && (seeded_by_entry(entry, s[j]@.address)
                    || seeded_by_exports(xs, s[j]@.address, xs.len() as int)
                    || seeded_by_branches(s, s[j]@.address, n as int) || seeded_by_prologues(
                    s,
                    arch,
                    s[j]@.address,
                    p + 1,
                ))) by {
                    if hit && s[p as int]@.address == s[j]@.address {
                        assert(prologue_at(s, arch, p as int));
                    }
                    if seeded_by_prologues(s, arch, s[j]@.address, p + 1) && !seeded_by_prologues(
                        s,
                        arch,
                        s[j]@.address,
                        p as int,
                    ) {
                        let w = choose|w: int|
                            0 <= w < p + 1 && #[trigger] prologue_at(s, arch, w) && s[w]@.address
                                == s[j]@.address;
                        assert(w == p);
                    }
                }
            }
            p = p + 1;
        }
        assert(forall|j: int|
            0 <= j < n ==> #[trigger] starts@[j] == is_function_start(s, entry, xs, arch, j));
        // 3. The start indices, in stream order.
        let mut firsts: Vec<usize> = Vec::new();
        let mut j: usize = 0;
        while j < n
            invariant
                n == s.len(),
                starts@.len() == n,
                j <= n,
                forall|t: int|
                    0 <= t < n ==> #[trigger] starts@[t] == is_function_start(
                        s,
                        entry,
                        xs,
                        arch,
                        t,
                    ),
                forall|k: int|
                    0 <= k < firsts@.len() ==> firsts@[k] < j && is_function_start(
                        s,
                        entry,
                        xs,
                        arch,
                        #[trigger] firsts@[k] as int,
                    ),
                forall|k1: int, k2: int|
                    0 <= k1 < k2 < firsts@.len() ==> #[trigger] firsts@[k1] < #[trigger] firsts@[k2],
                forall|t: int|
                    0 <= t < j && is_function_start(s, entry, xs, arch, t) ==> exists|k: int|
                        0 <= k < firsts@.len() && #[trigger] firsts@[k] == t,
            decreases n - j,
        {
            if starts[j] {
                let ghost old_firsts = firsts@;
                firsts.push(j);
                proof {
                    assert forall|t: int|
                        0 <= t < j + 1 && is_function_start(s, entry, xs, arch, t) implies exists|
                        k: int,
                    | 0 <= k < firsts@.len() && #[trigger] firsts@[k] == t by {
                        if t == j {
                            assert(firsts@[old_firsts.len() as int] == t);
                        } else {
                            let k = choose|k: int|
                                0 <= k < old_firsts.len() && #[trigger] old_firsts[k] == t;
                            assert(firsts@[k] == t);
                        }
                    }
                }
            }
            j = j + 1;
        }
        // 4. Cut the stream at each start.
        let total = firsts.len();
        let mut r: Vec<FunctionInfo> = Vec::new();
        let mut k: usize = 0;
        while k < total
            invariant
                n == s.len(),
                s == instructions@,
                xs == exports@,
                detection_defined(s, entry, xs, arch),
                total == firsts@.len(),
                k <= total,
                r@.len() == k,
                forall|q: int|
                    0 <= q < firsts@.len() ==> firsts@[q] < n && is_function_start(
                        s,
                        entry,
                        xs,
                        arch,
                        #[trigger] firsts@[q] as int,
                    ),
                forall|q1: int, q2: int|
                    0 <= q1 < q2 < firsts@.len() ==> #[trigger] firsts@[q1] < #[trigger] firsts@[q2],
                forall|q: int|
                    0 <= q < r@.len() ==> #[trigger] r@[q].address == s[firsts@[q] as int]@.address,
                forall|q: int|
                    0 <= q < r@.len() ==> describes_function(
                        #[trigger] r@[q],
                        s,
                        xs,
                        firsts@[q] as int,
                        if q + 1 < firsts@.len() {
                            firsts@[q + 1] as int
                        } else {
                            n as int
                        },
                    ),
            decreases total - k,
        {
            let start = firsts[k];
            let end = if k + 1 < total {
                firsts[k + 1]
            } else {
                n
            };
            assert(start < end) by {
                if k + 1 < total {
                    assert(firsts@[k as int] < firsts@[k + 1]);
                }
            }
            let f = build_function(instructions, exports, start, end);
            r.push(f);
            k = k + 1;
        }
        proof {
            assert forall|q: int| 0 <= q < r@.len() implies #[trigger] last_index(s, r@[q].address)
                == firsts@[q] as int by {
                lemma_last_index(s, r@[q].address, firsts@[q] as int);
            }
            assert forall|q1: int, q2: int|
                0 <= q1 < q2 < r@.len() implies r@[q1].address < r@[q2].address by {
                assert(last_index(s, r@[q1].address) == firsts@[q1] as int);
                assert(last_index(s, r@[q2].address) == firsts@[q2] as int);
                assert(firsts@[q1] < firsts@[q2]);
                assert(is_function_start(s, entry, xs, arch, firsts@[q1] as int));
                assert(is_function_start(s, entry, xs, arch, firsts@[q2] as int));
            }
            assert forall|t: int| #[trigger] is_function_start(s, entry, xs, arch, t) implies exists|
                q: int,
            | 0 <= q < r@.len() && #[trigger] r@[q].address == s[t]@.address by {
                let q = choose|q: int| 0 <= q < firsts@.len() && #[trigger] firsts@[q] == t;
                assert(r@[q].address == s[t]@.address);
            }
            assert forall|q: int| 0 <= q < r@.len() implies describes_function(
                #[trigger] r@[q],
                s,
                xs,
                last_index(s, r@[q].address),
                function_end(s, r@, q),
            ) by {
                if q + 1 < r@.len() {
                    assert(last_index(s, r@[q + 1].address) == firsts@[q + 1] as int);
                }
            }
        }
        r
    }

    /// Detection from the instruction stream alone: no entry point and no exports.
    pub fn detect_functions(&self, instructions: &[Instruction], architecture: &str) -> (r: Vec<
        FunctionInfo,
    >)
        requires
            detection_defined(instructions@, 0, seq![], architecture@),
        ensures
            detection_result(r@, instructions@, 0, seq![], architecture@),
    {
        let exports: Vec<ExportInfo> = Vec::new();
        let imports: Vec<ImportInfo> = Vec::new();
        proof {
            assert(exports@ =~= seq![]);
        }
        self.detect(
            FunctionDetectionInputs {
                instructions,
                entry_point: 0,
                exports: exports.as_slice(),
                imports: imports.as_slice(),
                architecture,
            },
        )
    }

    fn is_function_prologue(&self, instr: &Instruction, architecture: &str) -> (r: bool)
        ensures
            r == is_prologue(instr@.bytes, architecture@),
    {
        proof {
            use_type_invariant(self);
        }
        let bytes = match instr {
            Instruction::X86(x) => &x.bytes,
        };
        let arch = chars_of(architecture);
        let prologues = if eq_str(&arch, "x86") {
            &self.x86_prologues
        } else if eq_str(&arch, "x64") {
            &self.x64_prologues
        } else if eq_str(&arch, "ARM") {
            &self.arm_prologues
        } else if eq_str(&arch, "ARM64") {
            &self.arm64_prologues
        } else {
            return false;
        };
        let ghost table = prologue_table(architecture@).unwrap();
        assert(bytes_list_v(prologues@) == table);
        let mut k: usize = 0;
        while k < prologues.len()
            invariant
                k <= prologues.len(),
                bytes_list_v(prologues@) == table,
                prologue_table(architecture@) == Some(table),
                bytes@ == instr@.bytes,
                forall|q: int| 0 <= q < k ==> !bytes_start_with(bytes@, #[trigger] table[q]),
            decreases prologues.len() - k,
        {
            if starts_with_bytes(bytes.as_slice(), prologues[k].as_slice()) {
                assert(table[k as int] == prologues@[k as int]@);
                assert(bytes_start_with(instr@.bytes, table[k as int]));
                assert(table.len() == prologues@.len());
                assert(prologue_table(architecture@).unwrap() == table);
                assert(prologue_table(architecture@) is Some);
                assert(bytes_start_with(instr@.bytes, prologue_table(architecture@).unwrap()[k as int]));
                assert(is_prologue(instr@.bytes, architecture@));
                return true;
            }
            assert(table[k as int] == prologues@[k as int]@);
            k = k + 1;
        }
        false
    }
}

impl Default for FunctionDetector {
    fn default() -> (r: Self)
        ensures
            forall|arch: Seq<char>| r.prologues(arch) == prologue_table(arch),
    {
        Self::new()
    }
}

// ---------------------------------------------------------------------------
// Helpers
// ---------------------------------------------------------------------------

fn starts_with_bytes(b: &[u8], p: &[u8]) -> (r: bool)
    ensures
        r == bytes_start_with(b@, p@),
{
    if p.len() > b.len() {
        return false;
    }
    let mut i: usize = 0;
    while i < p.len()
        invariant
            p.len() <= b.len(),
            i <= p.len(),
            forall|j: int| 0 <= j < i ==> b@[j] == p@[j],
        decreases p.len() - i,
    {
        if b[i] != p[i] {
            assert(b@.subrange(0, p.len() as int)[i as int] != p@[i as int]);
            return false;
        }
        i = i + 1;
    }
    assert(b@.subrange(0, p.len() as int) =~= p@);
    true
}

/// The map from each address to the index of its last instruction.
fn address_index(instructions: &[Instruction]) -> (m: HashMap<u64, usize>)
    ensures
        address_index_ok(m@, instructions@),
{
    let ghost s = instructions@;
    let mut m: HashMap<u64, usize> = HashMap::new();
    let mut i: usize = 0;
    while i < instructions.len()
        invariant
            s == instructions@,
            i <= s.len(),
            forall|a: u64|
                m@.contains_key(a) <==> exists|j: int| 0 <= j < i && #[trigger] s[j]@.address == a,
            forall|a: u64|
                #[trigger] m@.contains_key(a) ==> {
                    let j = m@[a] as int;
                    &&& 0 <= j < i
                    &&& s[j]@.address == a
                    &&& forall|k: int| j < k < i ==> s[k]@.address != a
                },
        decreases s.len() - i,
    {
        let a = instructions[i].address();
        m.insert(a, i);
        proof {
            assert forall|b: u64| m@.contains_key(b) <==> exists|j: int|
                0 <= j < i + 1 && #[trigger] s[j]@.address == b by {
                if b == a {
                    assert(s[i as int]@.address == b);
                }
            }
        }
        i = i + 1;
    }
    proof {
        assert forall|a: u64| m@.contains_key(a) <==> has_address(s, a) by {
            if has_address(s, a) {
                let j = choose|j: int| 0 <= j < s.len() && #[trigger] s[j]@.address == a;
                assert(s[j]@.address == a);
            }
        }
    }
    m
}

/// Marks the start of a function at the last instruction with address `a`.
fn mark_start(
    starts: &mut Vec<bool>,
    index: &HashMap<u64, usize>,
    instructions: &[Instruction],
    a: u64,
)
    requires
        old(starts)@.len() == instructions@.len(),
        address_index_ok(index@, instructions@),
    ensures
        final(starts)@.len() == instructions@.len(),
        forall|j: int|
            0 <= j < instructions@.len() ==> #[trigger] final(starts)@[j] == (old(starts)@[j] || (
            is_last_occurrence(instructions@, j) && instructions@[j]@.address == a)),
{
    let ghost s = instructions@;
    match index.get(&a) {
        Some(j) => {
            let j = *j;
            assert(index_of_address(s, a, j as int));
            starts.set(j, true);
            proof {
                assert forall|t: int|
                    0 <= t < s.len() && is_last_occurrence(s, t) && s[t]@.address == a implies t
                    == j by {
                    if t < j {
                        assert(s[j as int]@.address != s[t]@.address);
                    } else if t > j {
                        assert(s[t]@.address != s[j as int]@.address);
                    }
                }
            }
        },
        None => {
            assert forall|t: int| 0 <= t < s.len() implies !(s[t]@.address == a) by {
                if s[t]@.address == a {
                    assert(has_address(s, a));
                }
            }
        },
    }
}

/// Extract a function-call target from an instruction, if structurally known.
fn branch_target(instr: &Instruction) -> (r: Option<u64>)
    ensures
        r == instr@.near_branch_target,
{
    match instr {
        Instruction::X86(x) => x.near_branch_target,
    }
}

fn looks_like_tail_jump(
    index: usize,
    instr: &Instruction,
    instructions: &[Instruction],
    addr_to_idx: &HashMap<u64, usize>,
) -> (r: bool)
    requires
        index < instructions@.len(),
        instr@ == instructions@[index as int]@,
        address_index_ok(addr_to_idx@, instructions@),
    ensures
        r == is_tail_jump(instructions@, index as int),
{
    let ghost s = instructions@;
    if !instr.is_unconditional_jump() {
        return false;
    }
    let target = match branch_target(instr) {
        Some(t) => t,
        None => {
            return false;
        },
    };
    let target_idx = match addr_to_idx.get(&target) {
        Some(t) => *t,
        None => {
            assert(!index_of_address(s, target, index + 1)) by {
                if index_of_address(s, target, index + 1) {
                    assert(has_address(s, target)) by {
                        assert(s[index + 1]@.address == target);
                    }
                }
            }
            return false;
        },
    };
    assert(index_of_address(s, target, target_idx as int));
    if index >= instructions.len() - 1 || target_idx != index + 1 {
        assert(!index_of_address(s, target, index + 1)) by {
            if index_of_address(s, target, index + 1) {
                let t = target_idx as int;
                if t < index + 1 {
                    assert(s[index + 1]@.address != s[t]@.address);
                } else if t > index + 1 {
                    assert(s[t]@.address != s[index + 1]@.address);
                }
            }
        }
        return false;
    }
    let len = instruction_len(instr);
    let here = instr.address();
    let follows = if here > u64::MAX - len {
        u64::MAX
    } else {
        here + len
    };
    instructions[target_idx].address() != follows
}

fn instruction_len(instr: &Instruction) -> (r: u64)
    ensures
        r == instr@.length as u64,
{
    match instr {
        Instruction::X86(x) => x.length as u64,
    }
}

/// Builds the function that owns instructions `start..end`.
fn build_function(instructions: &[Instruction], exports: &[ExportInfo], start: usize, end: usize) -> (f:
    FunctionInfo)
    requires
        start < end <= instructions@.len(),
        length_sum(instructions@, 0, instructions@.len() as int) <= usize::MAX,
    ensures
        f.address == instructions@[start as int]@.address,
        describes_function(f, instructions@, exports@, start as int, end as int),
{
    let ghost s = instructions@;
    let addr = instructions[start].address();
    let mut body: Vec<Instruction> = Vec::new();
    let mut size: usize = 0;
    let mut t: usize = start;
    while t < end
        invariant
            s == instructions@,
            start <= t <= end <= s.len(),
            length_sum(s, 0, s.len() as int) <= usize::MAX,
            body@.len() == t - start,
            forall|u: int| 0 <= u < t - start ==> #[trigger] body@[u]@ == s[start + u]@,
            size == length_sum(s, start as int, t as int),
        decreases end - t,
    {
        proof {
            lemma_length_sum_from(s, start as int, t + 1);
            lemma_length_sum_to(s, t + 1, s.len() as int);
        }
        let len = match &instructions[t] {
            Instruction::X86(x) => x.length,
        };
        size = size + len;
        body.push(instructions[t].copy());
        t = t + 1;
    }
    let name = function_name_of(exports, addr);
    let is_export = export_at(exports, addr);
    FunctionInfo { name, address: addr, size, instructions: body, is_import: false, is_export }
}

/// The name of the function at `a`.
fn function_name_of(exports: &[ExportInfo], a: u64) -> (r: String)
    ensures
        r@ == function_name(exports@, a),
{
    let ghost xs = exports@;
    let mut k: usize = 0;
    while k < exports.len()
        invariant
            xs == exports@,
            k <= xs.len(),
            export_name_from(xs, a, 0) == export_name_from(xs, a, k as int),
        decreases xs.len() - k,
    {
        if exports[k].address == a && exports[k].name.unicode_len() > 0 {
            return exports[k].name.clone();
        }
        k = k + 1;
    }
    let mut v: Vec<char> = Vec::new();
    extend_chars(&mut v, "sub_");
    push_hex(&mut v, a, true);
    string_of(&v)
}

/// Whether `a` is a nonzero export address.
fn export_at(exports: &[ExportInfo], a: u64) -> (r: bool)
    ensures
        r == is_export_address(exports@, a),
{
    if a == 0 {
        return false;
    }
    let mut k: usize = 0;
    while k < exports.len()
        invariant
            k <= exports@.len(),
            a != 0,
            !seeded_by_exports(exports@, a, k as int),
        decreases exports@.len() - k,
    {
        if exports[k].address == a {
            assert(exports@[k as int].address == a);
            return true;
        }
        k = k + 1;
    }
    false
}

} // verus!
