//! x86 register classes: every width alias of a general-purpose register
//! is named after its 64-bit register.

use crate::text::{chars_of, eq_str, lower_chars, lower_seq, string_of};
use vstd::prelude::*;

verus! {

/// The 64-bit register whose alias a lower-case register name is, if any.
pub open spec fn register_class(l: Seq<char>) -> Option<Seq<char>> {
    if l == "al"@ || l == "ah"@ || l == "ax"@ || l == "eax"@ || l == "rax"@ {
        Some("rax"@)
    } else if l == "bl"@ || l == "bh"@ || l == "bx"@ || l == "ebx"@ || l == "rbx"@ {
        Some("rbx"@)
    } else if l == "cl"@ || l == "ch"@ || l == "cx"@ || l == "ecx"@ || l == "rcx"@ {
        Some("rcx"@)
    } else if l == "dl"@ || l == "dh"@ || l == "dx"@ || l == "edx"@ || l == "rdx"@ {
        Some("rdx"@)
    } else if l == "sil"@ || l == "si"@ || l == "esi"@ || l == "rsi"@ {
        Some("rsi"@)
    } else if l == "dil"@ || l == "di"@ || l == "edi"@ || l == "rdi"@ {
        Some("rdi"@)
    } else if l == "bpl"@ || l == "bp"@ || l == "ebp"@ || l == "rbp"@ {
        Some("rbp"@)
    } else if l == "spl"@ || l == "sp"@ || l == "esp"@ || l == "rsp"@ {
        Some("rsp"@)
    } else if l == "r8b"@ || l == "r8w"@ || l == "r8d"@ || l == "r8"@ {
        Some("r8"@)
    } else if l == "r9b"@ || l == "r9w"@ || l == "r9d"@ || l == "r9"@ {
        Some("r9"@)
    } else if l == "r10b"@ || l == "r10w"@ || l == "r10d"@ || l == "r10"@ {
        Some("r10"@)
    } else if l == "r11b"@ || l == "r11w"@ || l == "r11d"@ || l == "r11"@ {
        Some("r11"@)
    } else if l == "r12b"@ || l == "r12w"@ || l == "r12d"@ || l == "r12"@ {
        Some("r12"@)
    } else if l == "r13b"@ || l == "r13w"@ || l == "r13d"@ || l == "r13"@ {
        Some("r13"@)
    } else if l == "r14b"@ || l == "r14w"@ || l == "r14d"@ || l == "r14"@ {
        Some("r14"@)
    } else if l == "r15b"@ || l == "r15w"@ || l == "r15d"@ || l == "r15"@ {
        Some("r15"@)
    } else {
        None
    }
}

/// A register name with its width alias collapsed; other text stays lower-cased.
pub open spec fn canonical_reg(l: Seq<char>) -> Seq<char> {
    match register_class(l) {
        Some(c) => c,
        None => l,
    }
}

pub fn register_class_exec(l: &[char]) -> (r: Option<&'static str>)
    ensures
        match r {
            Some(c) => register_class(l@) == Some(c@),
            None => register_class(l@) is None,
        },
{
    if eq_str(l, "al") || eq_str(l, "ah") || eq_str(l, "ax") || eq_str(l, "eax") || eq_str(l, "rax") {
        Some("rax")
    } else if eq_str(l, "bl") || eq_str(l, "bh") || eq_str(l, "bx") || eq_str(l, "ebx") || eq_str(l, "rbx") {
        Some("rbx")
    } else if eq_str(l, "cl") || eq_str(l, "ch") || eq_str(l, "cx") || eq_str(l, "ecx") || eq_str(l, "rcx") {
        Some("rcx")
    } else if eq_str(l, "dl") || eq_str(l, "dh") || eq_str(l, "dx") || eq_str(l, "edx") || eq_str(l, "rdx") {
        Some("rdx")
    } else if eq_str(l, "sil") || eq_str(l, "si") || eq_str(l, "esi") || eq_str(l, "rsi") {
        Some("rsi")
    } else if eq_str(l, "dil") || eq_str(l, "di") || eq_str(l, "edi") || eq_str(l, "rdi") {
        Some("rdi")
    } else if eq_str(l, "bpl") || eq_str(l, "bp") || eq_str(l, "ebp") || eq_str(l, "rbp") {
        Some("rbp")
    } else if eq_str(l, "spl") || eq_str(l, "sp") || eq_str(l, "esp") || eq_str(l, "rsp") {
        Some("rsp")
    } else if eq_str(l, "r8b") || eq_str(l, "r8w") || eq_str(l, "r8d") || eq_str(l, "r8") {
        Some("r8")
    } else if eq_str(l, "r9b") || eq_str(l, "r9w") || eq_str(l, "r9d") || eq_str(l, "r9") {
        Some("r9")
    } else if eq_str(l, "r10b") || eq_str(l, "r10w") || eq_str(l, "r10d") || eq_str(l, "r10") {
        Some("r10")
    } else if eq_str(l, "r11b") || eq_str(l, "r11w") || eq_str(l, "r11d") || eq_str(l, "r11") {
        Some("r11")
    } else if eq_str(l, "r12b") || eq_str(l, "r12w") || eq_str(l, "r12d") || eq_str(l, "r12") {
        Some("r12")
    } else if eq_str(l, "r13b") || eq_str(l, "r13w") || eq_str(l, "r13d") || eq_str(l, "r13") {
        Some("r13")
    } else if eq_str(l, "r14b") || eq_str(l, "r14w") || eq_str(l, "r14d") || eq_str(l, "r14") {
        Some("r14")
    } else if eq_str(l, "r15b") || eq_str(l, "r15w") || eq_str(l, "r15d") || eq_str(l, "r15") {
        Some("r15")
    } else {
        None
    }
}

/// Every name of `a`, `b`, `c` or `d` register `x` (`xl`, `xh`, `xx`, `exx`,
/// `rxx`) is an alias of `rxx`.
pub open spec fn legacy_aliases(x: char) -> bool {
    let r = seq!['r', x, 'x'];
    &&& register_class(seq![x, 'l']) == Some(r)
    &&& register_class(seq![x, 'h']) == Some(r)
    &&& register_class(seq![x, 'x']) == Some(r)
    &&& register_class(seq!['e', x, 'x']) == Some(r)
    &&& register_class(r) == Some(r)
}

/// Every name of the pointer or index register `xy` (`xyl`, `xy`, `exy`,
/// `rxy`) is an alias of `rxy`.
pub open spec fn index_aliases(x: char, y: char) -> bool {
    let r = seq!['r', x, y];
    &&& register_class(seq![x, y, 'l']) == Some(r)
    &&& register_class(seq![x, y]) == Some(r)
    &&& register_class(seq!['e', x, y]) == Some(r)
    &&& register_class(r) == Some(r)
}

/// Every name of numbered register `rN` (`rNb`, `rNw`, `rNd`, `rN`) is an
/// alias of `rN`.
pub open spec fn numbered_aliases(n: Seq<char>) -> bool {
    let r = seq!['r'] + n;
    &&& register_class(r + seq!['b']) == Some(r)
    &&& register_class(r + seq!['w']) == Some(r)
    &&& register_class(r + seq!['d']) == Some(r)
    &&& register_class(r) == Some(r)
}

/// Law: the byte, word and doubleword names of each general-purpose
/// register, and its own 64-bit name, all denote that 64-bit register.
#[verifier::spinoff_prover]
#[verifier::rlimit(60)]
pub proof fn lemma_register_aliases()
    ensures
        legacy_aliases('a') && legacy_aliases('b') && legacy_aliases('c') && legacy_aliases('d'),
        index_aliases('s', 'i') && index_aliases('d', 'i') && index_aliases('b', 'p')
            && index_aliases('s', 'p'),
        numbered_aliases(seq!['8']) && numbered_aliases(seq!['9']),
        numbered_aliases(seq!['1', '0']) && numbered_aliases(seq!['1', '1']),
        numbered_aliases(seq!['1', '2']) && numbered_aliases(seq!['1', '3']),
        numbered_aliases(seq!['1', '4']) && numbered_aliases(seq!['1', '5']),
{
    reveal_strlit("al"); reveal_strlit("ah"); reveal_strlit("ax"); reveal_strlit("eax"); reveal_strlit("rax");
    reveal_strlit("bl"); reveal_strlit("bh"); reveal_strlit("bx"); reveal_strlit("ebx"); reveal_strlit("rbx");
    reveal_strlit("cl"); reveal_strlit("ch"); reveal_strlit("cx"); reveal_strlit("ecx"); reveal_strlit("rcx");
    reveal_strlit("dl"); reveal_strlit("dh"); reveal_strlit("dx"); reveal_strlit("edx"); reveal_strlit("rdx");
    reveal_strlit("sil"); reveal_strlit("si"); reveal_strlit("esi"); reveal_strlit("rsi");
    reveal_strlit("dil"); reveal_strlit("di"); reveal_strlit("edi"); reveal_strlit("rdi");
    reveal_strlit("bpl"); reveal_strlit("bp"); reveal_strlit("ebp"); reveal_strlit("rbp");
    reveal_strlit("spl"); reveal_strlit("sp"); reveal_strlit("esp"); reveal_strlit("rsp");
    reveal_strlit("r8b"); reveal_strlit("r8w"); reveal_strlit("r8d"); reveal_strlit("r8");
    reveal_strlit("r9b"); reveal_strlit("r9w"); reveal_strlit("r9d"); reveal_strlit("r9");
    reveal_strlit("r10b"); reveal_strlit("r10w"); reveal_strlit("r10d"); reveal_strlit("r10");
    reveal_strlit("r11b"); reveal_strlit("r11w"); reveal_strlit("r11d"); reveal_strlit("r11");
    reveal_strlit("r12b"); reveal_strlit("r12w"); reveal_strlit("r12d"); reveal_strlit("r12");
    reveal_strlit("r13b"); reveal_strlit("r13w"); reveal_strlit("r13d"); reveal_strlit("r13");
    reveal_strlit("r14b"); reveal_strlit("r14w"); reveal_strlit("r14d"); reveal_strlit("r14");
    reveal_strlit("r15b"); reveal_strlit("r15w"); reveal_strlit("r15d"); reveal_strlit("r15");
    assert(seq!['a', 'l'] =~= "al"@);
    assert(seq!['a', 'h'] =~= "ah"@);
    assert(seq!['a', 'x'] =~= "ax"@);
    assert(seq!['e', 'a', 'x'] =~= "eax"@);
    assert(seq!['r', 'a', 'x'] =~= "rax"@);
    assert(seq!['b', 'l'] =~= "bl"@);
    assert(seq!['b', 'h'] =~= "bh"@);
    assert(seq!['b', 'x'] =~= "bx"@);
    assert(seq!['e', 'b', 'x'] =~= "ebx"@);
    assert(seq!['r', 'b', 'x'] =~= "rbx"@);
    assert(seq!['c', 'l'] =~= "cl"@);
    assert(seq!['c', 'h'] =~= "ch"@);
    assert(seq!['c', 'x'] =~= "cx"@);
    assert(seq!['e', 'c', 'x'] =~= "ecx"@);
    assert(seq!['r', 'c', 'x'] =~= "rcx"@);
    assert(seq!['d', 'l'] =~= "dl"@);
    assert(seq!['d', 'h'] =~= "dh"@);
    assert(seq!['d', 'x'] =~= "dx"@);
    assert(seq!['e', 'd', 'x'] =~= "edx"@);
    assert(seq!['r', 'd', 'x'] =~= "rdx"@);
    assert(seq!['s', 'i', 'l'] =~= "sil"@);
    assert(seq!['s', 'i'] =~= "si"@);
    assert(seq!['e', 's', 'i'] =~= "esi"@);
    assert(seq!['r', 's', 'i'] =~= "rsi"@);
    assert(seq!['d', 'i', 'l'] =~= "dil"@);
    assert(seq!['d', 'i'] =~= "di"@);
    assert(seq!['e', 'd', 'i'] =~= "edi"@);
    assert(seq!['r', 'd', 'i'] =~= "rdi"@);
    assert(seq!['b', 'p', 'l'] =~= "bpl"@);
    assert(seq!['b', 'p'] =~= "bp"@);
    assert(seq!['e', 'b', 'p'] =~= "ebp"@);
    assert(seq!['r', 'b', 'p'] =~= "rbp"@);
    assert(seq!['s', 'p', 'l'] =~= "spl"@);
    assert(seq!['s', 'p'] =~= "sp"@);
    assert(seq!['e', 's', 'p'] =~= "esp"@);
    assert(seq!['r', 's', 'p'] =~= "rsp"@);
    assert((seq!['r'] + seq!['8']) =~= "r8"@);
    assert((seq!['r'] + seq!['8']) + seq!['b'] =~= "r8b"@);
    assert((seq!['r'] + seq!['8']) + seq!['w'] =~= "r8w"@);
    assert((seq!['r'] + seq!['8']) + seq!['d'] =~= "r8d"@);
    assert((seq!['r'] + seq!['9']) =~= "r9"@);
    assert((seq!['r'] + seq!['9']) + seq!['b'] =~= "r9b"@);
    assert((seq!['r'] + seq!['9']) + seq!['w'] =~= "r9w"@);
    assert((seq!['r'] + seq!['9']) + seq!['d'] =~= "r9d"@);
    assert((seq!['r'] + seq!['1', '0']) =~= "r10"@);
    assert((seq!['r'] + seq!['1', '0']) + seq!['b'] =~= "r10b"@);
    assert((seq!['r'] + seq!['1', '0']) + seq!['w'] =~= "r10w"@);
    assert((seq!['r'] + seq!['1', '0']) + seq!['d'] =~= "r10d"@);
    assert((seq!['r'] + seq!['1', '1']) =~= "r11"@);
    assert((seq!['r'] + seq!['1', '1']) + seq!['b'] =~= "r11b"@);
    assert((seq!['r'] + seq!['1', '1']) + seq!['w'] =~= "r11w"@);
    assert((seq!['r'] + seq!['1', '1']) + seq!['d'] =~= "r11d"@);
    assert((seq!['r'] + seq!['1', '2']) =~= "r12"@);
    assert((seq!['r'] + seq!['1', '2']) + seq!['b'] =~= "r12b"@);
    assert((seq!['r'] + seq!['1', '2']) + seq!['w'] =~= "r12w"@);
    assert((seq!['r'] + seq!['1', '2']) + seq!['d'] =~= "r12d"@);
    assert((seq!['r'] + seq!['1', '3']) =~= "r13"@);
    assert((seq!['r'] + seq!['1', '3']) + seq!['b'] =~= "r13b"@);
    assert((seq!['r'] + seq!['1', '3']) + seq!['w'] =~= "r13w"@);
    assert((seq!['r'] + seq!['1', '3']) + seq!['d'] =~= "r13d"@);
    assert((seq!['r'] + seq!['1', '4']) =~= "r14"@);
    assert((seq!['r'] + seq!['1', '4']) + seq!['b'] =~= "r14b"@);
    assert((seq!['r'] + seq!['1', '4']) + seq!['w'] =~= "r14w"@);
    assert((seq!['r'] + seq!['1', '4']) + seq!['d'] =~= "r14d"@);
    assert((seq!['r'] + seq!['1', '5']) =~= "r15"@);
    assert((seq!['r'] + seq!['1', '5']) + seq!['b'] =~= "r15b"@);
    assert((seq!['r'] + seq!['1', '5']) + seq!['w'] =~= "r15w"@);
    assert((seq!['r'] + seq!['1', '5']) + seq!['d'] =~= "r15d"@);
    assert(numbered_aliases(seq!['8'])) by {
        let r = seq!['r'] + seq!['8'];
        assert(r.len() == 2 && r[0] == 'r' && r[1] == '8');
        assert((r + seq!['b']).len() == 3 && (r + seq!['b'])[0] == 'r' && (r + seq!['b'])[1] == '8' && (r + seq!['b'])[2] == 'b');
        assert((r + seq!['w']).len() == 3 && (r + seq!['w'])[0] == 'r' && (r + seq!['w'])[1] == '8' && (r + seq!['w'])[2] == 'w');
        assert((r + seq!['d']).len() == 3 && (r + seq!['d'])[0] == 'r' && (r + seq!['d'])[1] == '8' && (r + seq!['d'])[2] == 'd');
    }
    assert(numbered_aliases(seq!['9'])) by {
        let r = seq!['r'] + seq!['9'];
        assert(r.len() == 2 && r[0] == 'r' && r[1] == '9');
        assert((r + seq!['b']).len() == 3 && (r + seq!['b'])[0] == 'r' && (r + seq!['b'])[1] == '9' && (r + seq!['b'])[2] == 'b');
        assert((r + seq!['w']).len() == 3 && (r + seq!['w'])[0] == 'r' && (r + seq!['w'])[1] == '9' && (r + seq!['w'])[2] == 'w');
        assert((r + seq!['d']).len() == 3 && (r + seq!['d'])[0] == 'r' && (r + seq!['d'])[1] == '9' && (r + seq!['d'])[2] == 'd');
    }
    assert(numbered_aliases(seq!['1', '0'])) by {
        let r = seq!['r'] + seq!['1', '0'];
        assert(r.len() == 3 && r[0] == 'r' && r[1] == '1' && r[2] == '0');
        assert((r + seq!['b']).len() == 4 && (r + seq!['b'])[0] == 'r' && (r + seq!['b'])[1] == '1' && (r + seq!['b'])[2] == '0' && (r + seq!['b'])[3] == 'b');
        assert((r + seq!['w']).len() == 4 && (r + seq!['w'])[0] == 'r' && (r + seq!['w'])[1] == '1' && (r + seq!['w'])[2] == '0' && (r + seq!['w'])[3] == 'w');
        assert((r + seq!['d']).len() == 4 && (r + seq!['d'])[0] == 'r' && (r + seq!['d'])[1] == '1' && (r + seq!['d'])[2] == '0' && (r + seq!['d'])[3] == 'd');
    }
    assert(numbered_aliases(seq!['1', '1'])) by {
        let r = seq!['r'] + seq!['1', '1'];
        assert(r.len() == 3 && r[0] == 'r' && r[1] == '1' && r[2] == '1');
        assert((r + seq!['b']).len() == 4 && (r + seq!['b'])[0] == 'r' && (r + seq!['b'])[1] == '1' && (r + seq!['b'])[2] == '1' && (r + seq!['b'])[3] == 'b');
        assert((r + seq!['w']).len() == 4 && (r + seq!['w'])[0] == 'r' && (r + seq!['w'])[1] == '1' && (r + seq!['w'])[2] == '1' && (r + seq!['w'])[3] == 'w');
        assert((r + seq!['d']).len() == 4 && (r + seq!['d'])[0] == 'r' && (r + seq!['d'])[1] == '1' && (r + seq!['d'])[2] == '1' && (r + seq!['d'])[3] == 'd');
    }
    assert(numbered_aliases(seq!['1', '2'])) by {
        let r = seq!['r'] + seq!['1', '2'];
        assert(r.len() == 3 && r[0] == 'r' && r[1] == '1' && r[2] == '2');
        assert((r + seq!['b']).len() == 4 && (r + seq!['b'])[0] == 'r' && (r + seq!['b'])[1] == '1' && (r + seq!['b'])[2] == '2' && (r + seq!['b'])[3] == 'b');
        assert((r + seq!['w']).len() == 4 && (r + seq!['w'])[0] == 'r' && (r + seq!['w'])[1] == '1' && (r + seq!['w'])[2] == '2' && (r + seq!['w'])[3] == 'w');
        assert((r + seq!['d']).len() == 4 && (r + seq!['d'])[0] == 'r' && (r + seq!['d'])[1] == '1' && (r + seq!['d'])[2] == '2' && (r + seq!['d'])[3] == 'd');
    }
    assert(numbered_aliases(seq!['1', '3'])) by {
        let r = seq!['r'] + seq!['1', '3'];
        assert(r.len() == 3 && r[0] == 'r' && r[1] == '1' && r[2] == '3');
        assert((r + seq!['b']).len() == 4 && (r + seq!['b'])[0] == 'r' && (r + seq!['b'])[1] == '1' && (r + seq!['b'])[2] == '3' && (r + seq!['b'])[3] == 'b');
        assert((r + seq!['w']).len() == 4 && (r + seq!['w'])[0] == 'r' && (r + seq!['w'])[1] == '1' && (r + seq!['w'])[2] == '3' && (r + seq!['w'])[3] == 'w');
        assert((r + seq!['d']).len() == 4 && (r + seq!['d'])[0] == 'r' && (r + seq!['d'])[1] == '1' && (r + seq!['d'])[2] == '3' && (r + seq!['d'])[3] == 'd');
    }
    assert(numbered_aliases(seq!['1', '4'])) by {
        let r = seq!['r'] + seq!['1', '4'];
        assert(r.len() == 3 && r[0] == 'r' && r[1] == '1' && r[2] == '4');
        assert((r + seq!['b']).len() == 4 && (r + seq!['b'])[0] == 'r' && (r + seq!['b'])[1] == '1' && (r + seq!['b'])[2] == '4' && (r + seq!['b'])[3] == 'b');
        assert((r + seq!['w']).len() == 4 && (r + seq!['w'])[0] == 'r' && (r + seq!['w'])[1] == '1' && (r + seq!['w'])[2] == '4' && (r + seq!['w'])[3] == 'w');
        assert((r + seq!['d']).len() == 4 && (r + seq!['d'])[0] == 'r' && (r + seq!['d'])[1] == '1' && (r + seq!['d'])[2] == '4' && (r + seq!['d'])[3] == 'd');
    }
    assert(numbered_aliases(seq!['1', '5'])) by {
        let r = seq!['r'] + seq!['1', '5'];
        assert(r.len() == 3 && r[0] == 'r' && r[1] == '1' && r[2] == '5');
        assert((r + seq!['b']).len() == 4 && (r + seq!['b'])[0] == 'r' && (r + seq!['b'])[1] == '1' && (r + seq!['b'])[2] == '5' && (r + seq!['b'])[3] == 'b');
        assert((r + seq!['w']).len() == 4 && (r + seq!['w'])[0] == 'r' && (r + seq!['w'])[1] == '1' && (r + seq!['w'])[2] == '5' && (r + seq!['w'])[3] == 'w');
        assert((r + seq!['d']).len() == 4 && (r + seq!['d'])[0] == 'r' && (r + seq!['d'])[1] == '1' && (r + seq!['d'])[2] == '5' && (r + seq!['d'])[3] == 'd');
    }
}

/// The canonical name of a register: the lower-cased name with its width
/// alias collapsed to the 64-bit register.
pub fn canonical_register_name(value: &str) -> (r: String)
    ensures
        r@ == canonical_reg(lower_seq(value@)),
{
    let lower = lower_chars(&chars_of(value));
    match register_class_exec(&lower) {
        Some(c) => String::from_str(c),
        None => string_of(&lower),
    }
}

} // verus!
