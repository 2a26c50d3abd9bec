//! C syntax helpers: identifier sanitizing, string quoting and comment escaping.

use crate::text::{
    chars_of, dec_text, digit_value, digits_value, lemma_dec_text_value, eq_chars, eq_str, extend_chars, extend_slice, push_dec, string_of,
};
use vstd::prelude::*;

verus! {

pub open spec fn is_ident_char(c: char) -> bool {
    ('a' <= c && c <= 'z') || ('A' <= c && c <= 'Z') || ('0' <= c && c <= '9') || c == '_'
}

/// Every character that cannot stand in a C identifier becomes `_`.
pub open spec fn map_ident(s: Seq<char>) -> Seq<char> {
    Seq::new(s.len(), |i: int| if is_ident_char(s[i]) { s[i] } else { '_' })
}

/// The reserved words of C11.
pub open spec fn is_c_keyword(s: Seq<char>) -> bool {
    s == "auto"@
        || s == "break"@
        || s == "case"@
        || s == "char"@
        || s == "const"@
        || s == "continue"@
        || s == "default"@
        || s == "do"@
        || s == "double"@
        || s == "else"@
        || s == "enum"@
        || s == "extern"@
        || s == "float"@
        || s == "for"@
        || s == "goto"@
        || s == "if"@
        || s == "inline"@
        || s == "int"@
        || s == "long"@
        || s == "register"@
        || s == "restrict"@
        || s == "return"@
        || s == "short"@
        || s == "signed"@
        || s == "sizeof"@
        || s == "static"@
        || s == "struct"@
        || s == "switch"@
        || s == "typedef"@
        || s == "union"@
        || s == "unsigned"@
        || s == "void"@
        || s == "volatile"@
        || s == "while"@
        || s == "_Bool"@
        || s == "_Complex"@
        || s == "_Imaginary"@
        || s == "_Alignas"@
        || s == "_Alignof"@
        || s == "_Atomic"@
        || s == "_Generic"@
        || s == "_Noreturn"@
        || s == "_Static_assert"@
        || s == "_Thread_local"@
}

/// A valid C identifier for `name`: invalid characters become `_`, an empty
/// name becomes `fallback`, a leading digit is prefixed with `fallback_`,
/// and a reserved word gets a trailing `_`.
pub open spec fn sanitize_ident(name: Seq<char>, fallback: Seq<char>) -> Seq<char> {
    let m = map_ident(name);
    if m.len() == 0 {
        fallback
    } else if '0' <= m[0] && m[0] <= '9' {
        fallback + "_"@ + m
    } else if is_c_keyword(m) {
        m + "_"@
    } else {
        m
    }
}

/// A valid C identifier: not empty, made of letters, digits and `_`, not
/// starting with a digit, and not a reserved word.
pub open spec fn is_valid_c_ident(s: Seq<char>) -> bool {
    &&& s.len() > 0
    &&& forall|i: int| 0 <= i < s.len() ==> is_ident_char(#[trigger] s[i])
    &&& !('0' <= s[0] && s[0] <= '9')
    &&& !is_c_keyword(s)
}

/// Reserved words hold no digit and do not end in `_`.
proof fn lemma_keyword_shape(s: Seq<char>)
    requires
        is_c_keyword(s),
    ensures
        s.len() > 0,
        s.last() != '_',
        forall|i: int| 0 <= i < s.len() ==> !('0' <= #[trigger] s[i] && s[i] <= '9'),
{
    reveal_strlit("auto");
    reveal_strlit("break");
    reveal_strlit("case");
    reveal_strlit("char");
    reveal_strlit("const");
    reveal_strlit("continue");
    reveal_strlit("default");
    reveal_strlit("do");
    reveal_strlit("double");
    reveal_strlit("else");
    reveal_strlit("enum");
    reveal_strlit("extern");
    reveal_strlit("float");
    reveal_strlit("for");
    reveal_strlit("goto");
    reveal_strlit("if");
    reveal_strlit("inline");
    reveal_strlit("int");
    reveal_strlit("long");
    reveal_strlit("register");
    reveal_strlit("restrict");
    reveal_strlit("return");
    reveal_strlit("short");
    reveal_strlit("signed");
    reveal_strlit("sizeof");
    reveal_strlit("static");
    reveal_strlit("struct");
    reveal_strlit("switch");
    reveal_strlit("typedef");
    reveal_strlit("union");
    reveal_strlit("unsigned");
    reveal_strlit("void");
    reveal_strlit("volatile");
    reveal_strlit("while");
    reveal_strlit("_Bool");
    reveal_strlit("_Complex");
    reveal_strlit("_Imaginary");
    reveal_strlit("_Alignas");
    reveal_strlit("_Alignof");
    reveal_strlit("_Atomic");
    reveal_strlit("_Generic");
    reveal_strlit("_Noreturn");
    reveal_strlit("_Static_assert");
    reveal_strlit("_Thread_local");
}

/// Law: sanitizing always yields a valid C identifier, provided the fallback
/// is one.
pub proof fn lemma_sanitized_ident_valid(name: Seq<char>, fallback: Seq<char>)
    requires
        is_valid_c_ident(fallback),
    ensures
        is_valid_c_ident(sanitize_ident(name, fallback)),
{
    let m = map_ident(name);
    let r = sanitize_ident(name, fallback);
    reveal_strlit("_");
    if m.len() == 0 {
    } else if '0' <= m[0] && m[0] <= '9' {
        assert(r == fallback + "_"@ + m);
        assert(r[0] == fallback[0]);
        assert forall|i: int| 0 <= i < r.len() implies is_ident_char(#[trigger] r[i]) by {
            if i < fallback.len() {
                assert(r[i] == fallback[i]);
            } else if i == fallback.len() {
                assert(r[i] == '_');
            } else {
                assert(r[i] == m[i - fallback.len() - 1]);
            }
        }
        if is_c_keyword(r) {
            lemma_keyword_shape(r);
            assert(r[fallback.len() as int + 1] == m[0]);
        }
    } else if is_c_keyword(m) {
        assert(r == m + "_"@);
        assert(r[0] == m[0]);
        assert forall|i: int| 0 <= i < r.len() implies is_ident_char(#[trigger] r[i]) by {
            if i < m.len() {
                assert(r[i] == m[i]);
            }
        }
        if is_c_keyword(r) {
            lemma_keyword_shape(r);
        }
    } else {
    }
}

pub fn is_c_keyword_exec(s: &[char]) -> (r: bool)
    ensures
        r == is_c_keyword(s@),
{
    eq_str(s, "auto")
        || eq_str(s, "break")
        || eq_str(s, "case")
        || eq_str(s, "char")
        || eq_str(s, "const")
        || eq_str(s, "continue")
        || eq_str(s, "default")
        || eq_str(s, "do")
        || eq_str(s, "double")
        || eq_str(s, "else")
        || eq_str(s, "enum")
        || eq_str(s, "extern")
        || eq_str(s, "float")
        || eq_str(s, "for")
        || eq_str(s, "goto")
        || eq_str(s, "if")
        || eq_str(s, "inline")
        || eq_str(s, "int")
        || eq_str(s, "long")
        || eq_str(s, "register")
        || eq_str(s, "restrict")
        || eq_str(s, "return")
        || eq_str(s, "short")
        || eq_str(s, "signed")
        || eq_str(s, "sizeof")
        || eq_str(s, "static")
        || eq_str(s, "struct")
        || eq_str(s, "switch")
        || eq_str(s, "typedef")
        || eq_str(s, "union")
        || eq_str(s, "unsigned")
        || eq_str(s, "void")
        || eq_str(s, "volatile")
        || eq_str(s, "while")
        || eq_str(s, "_Bool")
        || eq_str(s, "_Complex")
        || eq_str(s, "_Imaginary")
        || eq_str(s, "_Alignas")
        || eq_str(s, "_Alignof")
        || eq_str(s, "_Atomic")
        || eq_str(s, "_Generic")
        || eq_str(s, "_Noreturn")
        || eq_str(s, "_Static_assert")
        || eq_str(s, "_Thread_local")
}

/// Sanitize `name` into a valid C identifier, using `fallback` when nothing usable remains.
pub fn sanitize_c_identifier(name: &str, fallback: &str) -> (r: String)
    ensures
        r@ == sanitize_ident(name@, fallback@),
{
    let cs = chars_of(name);
    let mut m: Vec<char> = Vec::new();
    let mut i: usize = 0;
    while i < cs.len()
        invariant
            i <= cs.len(),
            cs@ == name@,
            m@ == map_ident(name@).subrange(0, i as int),
        decreases cs.len() - i,
    {
        let c = cs[i];
        let ok = ('a' <= c && c <= 'z') || ('A' <= c && c <= 'Z') || ('0' <= c && c <= '9') || c
            == '_';
        m.push(if ok { c } else { '_' });
        i = i + 1;
        proof {
            assert(m@ =~= map_ident(name@).subrange(0, i as int));
        }
    }
    proof {
        assert(map_ident(name@).subrange(0, cs@.len() as int) =~= map_ident(name@));
    }
    if m.len() == 0 {
        return String::from_str(fallback);
    }
    if '0' <= m[0] && m[0] <= '9' {
        let mut out = chars_of(fallback);
        out.push('_');
        extend_slice(&mut out, &m);
        proof {
            assert(out@ =~= fallback@ + "_"@ + m@) by {
                reveal_strlit("_");
            }
        }
        return string_of(&out);
    }
    if is_c_keyword_exec(&m) {
        m.push('_');
        proof {
            reveal_strlit("_");
            assert(m@ =~= map_ident(name@) + "_"@);
        }
        return string_of(&m);
    }
    string_of(&m)
}

/// The `k`-th candidate for a unique name: the base itself, then `base_2`, `base_3`, ...
pub open spec fn name_candidate(base: Seq<char>, k: nat) -> Seq<char> {
    if k <= 1 {
        base
    } else {
        base + "_"@ + dec_text(k)
    }
}

/// The first candidate from `k` on that is not taken; the search stops after
/// as many candidates as there are taken names.
pub open spec fn first_free_from(base: Seq<char>, used: Seq<Seq<char>>, k: nat) -> Seq<char>
    decreases used.len() + 1 - k,
{
    if k > used.len() || !used.contains(name_candidate(base, k)) {
        name_candidate(base, k)
    } else {
        first_free_from(base, used, k + 1)
    }
}

pub open spec fn used_view(used: Seq<Vec<char>>) -> Seq<Seq<char>> {
    used.map_values(|v: Vec<char>| v@)
}

proof fn lemma_candidates_differ(base: Seq<char>, j: nat, k: nat)
    requires
        1 <= j < k,
    ensures
        name_candidate(base, j) != name_candidate(base, k),
{
    lemma_dec_text_value(k);
    reveal_strlit("_");
    let b = name_candidate(base, k);
    assert(b == base + "_"@ + dec_text(k));
    if j > 1 {
        lemma_dec_text_value(j);
        let a = name_candidate(base, j);
        if a == b {
            assert(a.skip(base.len() as int + 1) =~= dec_text(j));
            assert(b.skip(base.len() as int + 1) =~= dec_text(k));
        }
    }
}

/// The search for a free candidate, once every candidate before `k` is
/// taken, ends on one that is not taken.
pub(crate) proof fn lemma_first_free_is_free(base: Seq<char>, used: Seq<Seq<char>>, k: nat)
    requires
        k >= 1,
        forall|i: nat| 1 <= i < k ==> used.contains(#[trigger] name_candidate(base, i)),
    ensures
        !used.contains(first_free_from(base, used, k)),
    decreases used.len() + 1 - k,
{
    if k > used.len() || !used.contains(name_candidate(base, k)) {
        if used.contains(name_candidate(base, k)) {
            let cs = Seq::new(k, |i: int| name_candidate(base, (i + 1) as nat));
            assert forall|i: int, j: int| 0 <= i < cs.len() && 0 <= j < cs.len() && i != j implies cs[i]
                != cs[j] by {
                if i < j {
                    lemma_candidates_differ(base, (i + 1) as nat, (j + 1) as nat);
                } else {
                    lemma_candidates_differ(base, (j + 1) as nat, (i + 1) as nat);
                }
            }
            assert(cs.no_duplicates());
            cs.unique_seq_to_set();
            assert forall|x: Seq<char>| cs.to_set().contains(x) implies used.to_set().contains(x) by {
                let i = choose|i: int| 0 <= i < cs.len() && cs[i] == x;
                if i + 1 < k {
                    assert(used.contains(name_candidate(base, (i + 1) as nat)));
                }
            }
            used.lemma_cardinality_of_set();
            vstd::set_lib::lemma_len_subset(cs.to_set(), used.to_set());
        }
    } else {
        lemma_first_free_is_free(base, used, k + 1);
    }
}

fn is_used(used: &Vec<Vec<char>>, name: &[char]) -> (r: bool)
    ensures
        r == used_view(used@).contains(name@),
{
    let mut i: usize = 0;
    while i < used.len()
        invariant
            i <= used@.len(),
            forall|j: int| 0 <= j < i ==> used@[j]@ != name@,
        decreases used.len() - i,
    {
        if eq_chars(&used[i], name) {
            proof {
                assert(used_view(used@)[i as int] == name@);
            }
            return true;
        }
        i = i + 1;
    }
    proof {
        if used_view(used@).contains(name@) {
            let j = choose|j: int| 0 <= j < used_view(used@).len() && used_view(used@)[j] == name@;
            assert(used@[j]@ == name@);
        }
    }
    false
}

fn candidate_exec(base: &[char], k: u64) -> (r: Vec<char>)
    ensures
        r@ == name_candidate(base@, k as nat),
{
    let mut out: Vec<char> = Vec::new();
    extend_slice(&mut out, base);
    if k > 1 {
        out.push('_');
        push_dec(&mut out, k);
        proof {
            reveal_strlit("_");
            assert(out@ =~= base@ + "_"@ + dec_text(k as nat));
        }
    } else {
        proof {
            assert(out@ =~= base@);
        }
    }
    out
}

/// A sanitized identifier for `name` that is not yet in `used`, recorded there.
pub fn unique_c_identifier(name: &str, fallback: &str, used: &mut Vec<Vec<char>>) -> (r: String)
    requires
        old(used)@.len() < u64::MAX,
    ensures
        r@ == first_free_from(sanitize_ident(name@, fallback@), used_view(old(used)@), 1),
        !used_view(old(used)@).contains(r@),
        used_view(final(used)@) == used_view(old(used)@).push(r@),
{
    let base_s = sanitize_c_identifier(name, fallback);
    let base = chars_of(base_s.as_str());
    let n = used.len() as u64;
    let mut k: u64 = 1;
    loop
        invariant
            1 <= k <= n + 1,
            n == used@.len(),
            n < u64::MAX,
            base@ == sanitize_ident(name@, fallback@),
            used@ == old(used)@,
            first_free_from(base@, used_view(used@), 1) == first_free_from(base@, used_view(used@), k as nat),
        decreases n + 1 - k,
    {
        let cand = candidate_exec(&base, k);
        if k > n || !is_used(used, &cand) {
            let r = string_of(&cand);
            used.push(cand);
            proof {
                assert(used_view(used@) =~= used_view(old(used)@).push(r@));
                lemma_first_free_is_free(base@, used_view(old(used)@), 1);
            }
            return r;
        }
        k = k + 1;
    }
}

/// A C comment body in which every `*/` is split into `* /`.
pub open spec fn sanitize_comment_seq(s: Seq<char>) -> Seq<char>
    decreases s.len(),
{
    if s.len() == 0 {
        s
    } else if s.len() >= 2 && s[0] == '*' && s[1] == '/' {
        "* /"@ + sanitize_comment_seq(s.skip(2))
    } else {
        seq![s[0]] + sanitize_comment_seq(s.skip(1))
    }
}

/// `*/` occurs in the text at position `i`.
pub open spec fn closes_comment_at(s: Seq<char>, i: int) -> bool {
    0 <= i && i + 1 < s.len() && s[i] == '*' && s[i + 1] == '/'
}

/// Law: escaped comment text holds no `*/`, so it cannot end the comment
/// it is placed in.
pub proof fn lemma_sanitized_comment_never_closes(s: Seq<char>)
    ensures
        forall|i: int| !#[trigger] closes_comment_at(sanitize_comment_seq(s), i),
        s.len() > 0 ==> sanitize_comment_seq(s).len() > 0 && sanitize_comment_seq(s)[0] == s[0],
    decreases s.len(),
{
    reveal_strlit("* /");
    let r = sanitize_comment_seq(s);
    if s.len() == 0 {
    } else if s.len() >= 2 && s[0] == '*' && s[1] == '/' {
        let rest = sanitize_comment_seq(s.skip(2));
        lemma_sanitized_comment_never_closes(s.skip(2));
        assert(r == "* /"@ + rest);
        assert forall|i: int| !#[trigger] closes_comment_at(r, i) by {
            if closes_comment_at(r, i) {
                if i >= 3 {
                    assert(r[i] == rest[i - 3]);
                    assert(r[i + 1] == rest[i - 2]);
                    assert(closes_comment_at(rest, i - 3));
                }
            }
        }
    } else {
        let rest = sanitize_comment_seq(s.skip(1));
        lemma_sanitized_comment_never_closes(s.skip(1));
        assert(r == seq![s[0]] + rest);
        assert forall|i: int| !#[trigger] closes_comment_at(r, i) by {
            if closes_comment_at(r, i) {
                if i >= 1 {
                    assert(r[i] == rest[i - 1]);
                    assert(r[i + 1] == rest[i]);
                    assert(closes_comment_at(rest, i - 1));
                } else {
                    assert(rest[0] == s.skip(1)[0]);
                }
            }
        }
    }
}

/// Make text safe to place inside a `/* ... */` comment.
pub fn sanitize_c_comment(text: &str) -> (r: String)
    ensures
        r@ == sanitize_comment_seq(text@),
{
    let cs = chars_of(text);
    let out = sanitize_comment_chars(&cs);
    string_of(&out)
}

/// `sanitize_c_comment` on characters.
pub fn sanitize_comment_chars(cs: &[char]) -> (r: Vec<char>)
    ensures
        r@ == sanitize_comment_seq(cs@),
{
    let mut out: Vec<char> = Vec::new();
    let mut i: usize = 0;
    proof {
        assert(cs@.skip(0) =~= cs@);
    }
    while i < cs.len()
        invariant
            i <= cs.len(),
            sanitize_comment_seq(cs@) == out@ + sanitize_comment_seq(cs@.skip(i as int)),
        decreases cs.len() - i,
    {
        let ghost rest = cs@.skip(i as int);
        if i + 1 < cs.len() && cs[i] == '*' && cs[i + 1] == '/' {
            extend_chars(&mut out, "* /");
            proof {
                assert(rest.skip(2) =~= cs@.skip(i + 2));
                assert(sanitize_comment_seq(rest) == "* /"@ + sanitize_comment_seq(rest.skip(2)));
            }
            i = i + 2;
        } else {
            out.push(cs[i]);
            proof {
                assert(rest.skip(1) =~= cs@.skip(i + 1));
                assert(rest.len() >= 2 ==> rest[1] == cs@[i + 1]);
                assert(sanitize_comment_seq(rest) == seq![cs@[i as int]] + sanitize_comment_seq(
                    rest.skip(1),
                ));
            }
            i = i + 1;
        }
    }
    proof {
        assert(cs@.skip(cs@.len() as int).len() == 0);
        assert(out@ + seq![] =~= out@);
    }
    out
}

pub open spec fn octal_digit(d: int) -> char {
    (d + 48) as char
}

/// How one character is written inside a C string literal.
pub open spec fn escape_char(c: char) -> Seq<char> {
    if c == '\\' {
        "\\\\"@
    } else if c == '"' {
        "\\\""@
    } else if c == '\n' {
        "\\n"@
    } else if c == '\r' {
        "\\r"@
    } else if c == '\t' {
        "\\t"@
    } else if (c as u32) < 0x20 || c as u32 == 0x7F {
        seq!['\\', octal_digit((c as int) / 64), octal_digit(((c as int) / 8) % 8), octal_digit((c as int) % 8)]
    } else {
        seq![c]
    }
}

pub open spec fn escape_seq(s: Seq<char>) -> Seq<char>
    decreases s.len(),
{
    if s.len() == 0 {
        seq![]
    } else {
        escape_seq(s.drop_last()) + escape_char(s.last())
    }
}

/// A C string literal: the escaped text between double quotes.
pub open spec fn quote_seq(s: Seq<char>) -> Seq<char> {
    "\""@ + escape_seq(s) + "\""@
}

pub open spec fn is_octal(c: char) -> bool {
    '0' <= c && c <= '7'
}

/// How many octal digits, at most three, start `e`: the digits of a C octal
/// escape.
pub open spec fn octal_run(e: Seq<char>) -> int {
    if e.len() >= 3 && is_octal(e[0]) && is_octal(e[1]) && is_octal(e[2]) {
        3
    } else if e.len() >= 2 && is_octal(e[0]) && is_octal(e[1]) {
        2
    } else if e.len() >= 1 && is_octal(e[0]) {
        1
    } else {
        0
    }
}

/// The character that the simple escape `\x` stands for.
pub open spec fn simple_escape(x: char) -> Option<char> {
    if x == 'n' {
        Some('\n')
    } else if x == 'r' {
        Some('\r')
    } else if x == 't' {
        Some('\t')
    } else if x == '\\' || x == '"' {
        Some(x)
    } else {
        None
    }
}

pub open spec fn prepend(c: char, t: Option<Seq<char>>) -> Option<Seq<char>> {
    match t {
        Some(t) => Some(seq![c] + t),
        None => None,
    }
}

/// The characters that the body of a C string literal stands for, read as
/// a C compiler reads it; `None` when the body holds a raw `"` or line
/// break, or an escape other than `\\`, `\"`, `\n`, `\r`, `\t` and octal ones.
pub open spec fn unescape_seq(e: Seq<char>) -> Option<Seq<char>>
    decreases e.len(),
{
    if e.len() == 0 {
        Some(seq![])
    } else if e[0] == '\\' {
        if e.len() < 2 {
            None
        } else {
            let k = octal_run(e.skip(1));
            if k > 0 {
                prepend(digits_value(e.subrange(1, 1 + k), 8) as char, unescape_seq(e.skip(1 + k)))
            } else {
                match simple_escape(e[1]) {
                    Some(c) => prepend(c, unescape_seq(e.skip(2))),
                    None => None,
                }
            }
        }
    } else if e[0] == '"' || e[0] == '\n' {
        None
    } else {
        prepend(e[0], unescape_seq(e.skip(1)))
    }
}

/// The value of a C string literal, when it is one.
pub open spec fn c_string_value(lit: Seq<char>) -> Option<Seq<char>> {
    if lit.len() >= 2 && lit[0] == '"' && lit.last() == '"' {
        unescape_seq(lit.subrange(1, lit.len() - 1))
    } else {
        None
    }
}

proof fn lemma_escape_front(s: Seq<char>)
    requires
        s.len() > 0,
    ensures
        escape_seq(s) == escape_char(s[0]) + escape_seq(s.drop_first()),
    decreases s.len(),
{
    if s.len() == 1 {
        assert(s.drop_last() =~= seq![]);
        assert(s.drop_first() =~= seq![]);
        assert(escape_seq(s.drop_last()) =~= seq![]);
        assert(escape_seq(s.drop_first()) =~= seq![]);
        assert(escape_seq(s) =~= escape_char(s[0]));
    } else {
        lemma_escape_front(s.drop_last());
        assert(s.drop_last().drop_first() =~= s.drop_first().drop_last());
        assert(s.drop_first().last() == s.last());
        assert(escape_seq(s) =~= escape_char(s[0]) + escape_seq(s.drop_first()));
    }
}

proof fn lemma_octal_escape_value(c: char)
    requires
        (c as u32) < 0x20 || c as u32 == 0x7F,
    ensures
        (c as int) / 64 * 64 + (c as int) / 8 % 8 * 8 + (c as int) % 8 == c as int,
        (c as int) / 64 < 8,
{
    let v = c as int;
    assert(0 <= v < 128);
    assert(v / 64 * 64 + v / 8 % 8 * 8 + v % 8 == v) by (nonlinear_arith)
        requires
            0 <= v < 128,
    ;
}

proof fn lemma_unescape_char(c: char, rest: Seq<char>)
    ensures
        unescape_seq(escape_char(c) + rest) == prepend(c, unescape_seq(rest)),
{
    let e = escape_char(c) + rest;
    reveal_strlit("\\\\");
    reveal_strlit("\\\"");
    reveal_strlit("\\n");
    reveal_strlit("\\r");
    reveal_strlit("\\t");
    if c == '\\' || c == '"' || c == '\n' || c == '\r' || c == '\t' {
        assert(e.skip(2) =~= rest);
        assert(octal_run(e.skip(1)) == 0);
    } else if (c as u32) < 0x20 || c as u32 == 0x7F {
        lemma_octal_escape_value(c);
        let v = c as int;
        let d = e.subrange(1, 4);
        assert(e.skip(4) =~= rest);
        assert(octal_run(e.skip(1)) == 3);
        assert(digit_value(d[0]) == v / 64);
        assert(digit_value(d[1]) == v / 8 % 8);
        assert(digit_value(d[2]) == v % 8);
        let d1 = d.drop_last().drop_last();
        assert(d1.drop_last() =~= seq![]);
        assert(d1.last() == d[0]);
        assert(digits_value(d1.drop_last(), 8) == 0);
        assert(digits_value(d1, 8) == v / 64);
        assert(d.drop_last().last() == d[1]);
        assert(digits_value(d.drop_last(), 8) == v / 64 * 8 + v / 8 % 8);
        assert(digits_value(d, 8) == v);
    } else {
        assert(e.skip(1) =~= rest);
    }
}

/// Law: a quoted string literal reads back as exactly the text it was made
/// from.
pub proof fn lemma_quoted_string_reads_back(s: Seq<char>)
    ensures
        unescape_seq(escape_seq(s)) == Some(s),
        c_string_value(quote_seq(s)) == Some(s),
    decreases s.len(),
{
    if s.len() > 0 {
        lemma_escape_front(s);
        lemma_quoted_string_reads_back(s.drop_first());
        lemma_unescape_char(s[0], escape_seq(s.drop_first()));
        assert(seq![s[0]] + s.drop_first() =~= s);
    }
    reveal_strlit("\"");
    let q = quote_seq(s);
    assert(q.subrange(1, q.len() - 1) =~= escape_seq(s));
}

fn push_escaped(out: &mut Vec<char>, c: char)
    ensures
        final(out)@ == old(out)@ + escape_char(c),
{
    if c == '\\' {
        extend_chars(out, "\\\\");
    } else if c == '"' {
        extend_chars(out, "\\\"");
    } else if c == '\n' {
        extend_chars(out, "\\n");
    } else if c == '\r' {
        extend_chars(out, "\\r");
    } else if c == '\t' {
        extend_chars(out, "\\t");
    } else if (c as u32) < 0x20 || c as u32 == 0x7F {
        let v = c as u32;
        out.push('\\');
        out.push(((v / 64) as u8 + 48) as char);
        out.push((((v / 8) % 8) as u8 + 48) as char);
        out.push(((v % 8) as u8 + 48) as char);
        proof {
            assert(final(out)@ =~= old(out)@ + escape_char(c));
        }
    } else {
        out.push(c);
        proof {
            assert(final(out)@ =~= old(out)@ + escape_char(c));
        }
    }
}

/// Escape text for a C string literal and surround it with double quotes.
pub fn quote_c_string(text: &str) -> (r: String)
    ensures
        r@ == quote_seq(text@),
{
    let cs = chars_of(text);
    let mut out: Vec<char> = Vec::new();
    extend_chars(&mut out, "\"");
    let mut i: usize = 0;
    while i < cs.len()
        invariant
            i <= cs.len(),
            cs@ == text@,
            out@ == "\""@ + escape_seq(cs@.subrange(0, i as int)),
        decreases cs.len() - i,
    {
        push_escaped(&mut out, cs[i]);
        proof {
            assert(cs@.subrange(0, i + 1).drop_last() =~= cs@.subrange(0, i as int));
            assert(out@ =~= "\""@ + escape_seq(cs@.subrange(0, i + 1)));
        }
        i = i + 1;
    }
    extend_chars(&mut out, "\"");
    proof {
        assert(cs@.subrange(0, cs@.len() as int) =~= cs@);
        assert(out@ =~= quote_seq(text@));
    }
    string_of(&out)
}

} // verus!
