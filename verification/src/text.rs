//! Character-level text helpers used by every pass of the decompiler.
//!
//! Strings are modelled by their view, a `Seq<char>`. The helpers here work on
//! character vectors and state their results over those sequences.

use vstd::prelude::*;

verus! {

/// Appends one character to a string.
/// Wraps `String::push`, which adds the character at the end of the string.
#[verifier::external_body]
pub(crate) fn push_char(s: &mut String, c: char)
    ensures
        final(s)@ == old(s)@.push(c),
{
    s.push(c)
}

// ---------------------------------------------------------------------------
// Conversions between strings and character vectors
// ---------------------------------------------------------------------------

/// The characters of a string slice, in order.
pub fn chars_of(s: &str) -> (v: Vec<char>)
    ensures
        v@ == s@,
{
    let n = s.unicode_len();
    let mut v: Vec<char> = Vec::new();
    let mut i: usize = 0;
    while i < n
        invariant
            n == s@.len(),
            i <= n,
            v@ == s@.subrange(0, i as int),
        decreases n - i,
    {
        v.push(s.get_char(i));
        i = i + 1;
    }
    v
}

/// A string holding exactly the given characters.
pub fn string_of(v: &[char]) -> (s: String)
    ensures
        s@ == v@,
{
    let mut s = String::new();
    let mut i: usize = 0;
    while i < v.len()
        invariant
            i <= v.len(),
            s@ == v@.subrange(0, i as int),
        decreases v.len() - i,
    {
        push_char(&mut s, v[i]);
        i = i + 1;
    }
    s
}

/// Appends a string slice to a vector of characters.
pub fn extend_chars(v: &mut Vec<char>, s: &str)
    ensures
        final(v)@ == old(v)@ + s@,
{
    let n = s.unicode_len();
    let mut i: usize = 0;
    while i < n
        invariant
            n == s@.len(),
            i <= n,
            v@ == old(v)@ + s@.subrange(0, i as int),
        decreases n - i,
    {
        v.push(s.get_char(i));
        i = i + 1;
        proof {
            assert(s@.subrange(0, i as int) =~= s@.subrange(0, i - 1).push(s@[i - 1]));
        }
    }
    proof {
        assert(s@.subrange(0, n as int) =~= s@);
    }
}

/// Appends a slice of characters to a vector of characters.
pub fn extend_slice(v: &mut Vec<char>, s: &[char])
    ensures
        final(v)@ == old(v)@ + s@,
{
    let mut i: usize = 0;
    while i < s.len()
        invariant
            i <= s.len(),
            v@ == old(v)@ + s@.subrange(0, i as int),
        decreases s.len() - i,
    {
        v.push(s[i]);
        i = i + 1;
        proof {
            assert(s@.subrange(0, i as int) =~= s@.subrange(0, i - 1).push(s@[i - 1]));
        }
    }
    proof {
        assert(s@.subrange(0, s@.len() as int) =~= s@);
    }
}

/// Whether a character sequence equals a string slice.
pub fn eq_str(v: &[char], lit: &str) -> (r: bool)
    ensures
        r == (v@ == lit@),
{
    let n = lit.unicode_len();
    if v.len() != n {
        return false;
    }
    let mut i: usize = 0;
    while i < n
        invariant
            n == lit@.len(),
            n == v@.len(),
            i <= n,
            forall|j: int| 0 <= j < i ==> v@[j] == lit@[j],
        decreases n - i,
    {
        if v[i] != lit.get_char(i) {
            return false;
        }
        i = i + 1;
    }
    proof {
        assert(v@ =~= lit@);
    }
    true
}

/// Whether two character sequences are equal.
pub fn eq_chars(a: &[char], b: &[char]) -> (r: bool)
    ensures
        r == (a@ == b@),
{
    if a.len() != b.len() {
        return false;
    }
    let mut i: usize = 0;
    while i < a.len()
        invariant
            a@.len() == b@.len(),
            i <= a.len(),
            forall|j: int| 0 <= j < i ==> a@[j] == b@[j],
        decreases a.len() - i,
    {
        if a[i] != b[i] {
            return false;
        }
        i = i + 1;
    }
    proof {
        assert(a@ =~= b@);
    }
    true
}

/// Copy of a sub-range of characters.
pub fn slice_chars(v: &[char], from: usize, to: usize) -> (r: Vec<char>)
    requires
        from <= to <= v@.len(),
    ensures
        r@ == v@.subrange(from as int, to as int),
{
    let mut out: Vec<char> = Vec::new();
    let mut i: usize = from;
    while i < to
        invariant
            from <= i <= to,
            to <= v@.len(),
            out@ == v@.subrange(from as int, i as int),
        decreases to - i,
    {
        out.push(v[i]);
        i = i + 1;
    }
    out
}

// ---------------------------------------------------------------------------
// ASCII case folding
// ---------------------------------------------------------------------------

pub open spec fn lower_char(c: char) -> char {
    if 'A' <= c && c <= 'Z' {
        ((c as u32) + 32) as char
    } else {
        c
    }
}

pub open spec fn lower_seq(s: Seq<char>) -> Seq<char> {
    Seq::new(s.len(), |i: int| lower_char(s[i]))
}

pub open spec fn upper_char(c: char) -> char {
    if 'a' <= c && c <= 'z' {
        ((c as u32) - 32) as char
    } else {
        c
    }
}

/// ASCII upper-casing (`to_ascii_uppercase`).
pub open spec fn upper_seq(s: Seq<char>) -> Seq<char> {
    Seq::new(s.len(), |i: int| upper_char(s[i]))
}

/// Lower-casing an upper-cased text gives the lower-cased text.
pub proof fn lemma_lower_of_upper(s: Seq<char>)
    ensures
        lower_seq(upper_seq(s)) == lower_seq(s),
{
    assert forall|i: int| 0 <= i < s.len() implies #[trigger] lower_seq(upper_seq(s))[i] == lower_seq(s)[i] by {
        let c = s[i];
        if 'a' <= c && c <= 'z' {
            let u = upper_char(c);
            assert(u as u32 == (c as u32) - 32);
            assert('A' <= u && u <= 'Z');
            assert(lower_char(u) as u32 == c as u32);
        }
    }
    assert(lower_seq(upper_seq(s)) =~= lower_seq(s));
}

/// Case-insensitive equality for ASCII letters.
pub open spec fn eq_ignore_case(a: Seq<char>, b: Seq<char>) -> bool {
    lower_seq(a) == lower_seq(b)
}

pub fn lower_char_exec(c: char) -> (r: char)
    ensures
        r == lower_char(c),
{
    if 'A' <= c && c <= 'Z' {
        ((c as u8) + 32) as char
    } else {
        c
    }
}

/// ASCII lower-casing of a character sequence.
pub fn lower_chars(s: &[char]) -> (r: Vec<char>)
    ensures
        r@ == lower_seq(s@),
{
    let mut out: Vec<char> = Vec::new();
    let mut i: usize = 0;
    while i < s.len()
        invariant
            i <= s.len(),
            out@ == lower_seq(s@).subrange(0, i as int),
        decreases s.len() - i,
    {
        out.push(lower_char_exec(s[i]));
        i = i + 1;
        proof {
            assert(out@ =~= lower_seq(s@).subrange(0, i as int));
        }
    }
    proof {
        assert(lower_seq(s@).subrange(0, s@.len() as int) =~= lower_seq(s@));
    }
    out
}

/// Case-insensitive comparison of ASCII letters.
pub fn eq_ignore_case_exec(a: &[char], b: &[char]) -> (r: bool)
    ensures
        r == eq_ignore_case(a@, b@),
{
    let la = lower_chars(a);
    let lb = lower_chars(b);
    eq_chars(&la, &lb)
}

// ---------------------------------------------------------------------------
// Prefixes, suffixes and substrings
// ---------------------------------------------------------------------------

pub open spec fn starts_with(s: Seq<char>, p: Seq<char>) -> bool {
    p.len() <= s.len() && s.subrange(0, p.len() as int) == p
}

pub open spec fn ends_with(s: Seq<char>, p: Seq<char>) -> bool {
    p.len() <= s.len() && s.subrange(s.len() - p.len(), s.len() as int) == p
}

pub open spec fn occurs_at(s: Seq<char>, p: Seq<char>, i: int) -> bool {
    0 <= i && i + p.len() <= s.len() && s.subrange(i, i + p.len()) == p
}

pub open spec fn contains_seq(s: Seq<char>, p: Seq<char>) -> bool {
    exists|i: int| occurs_at(s, p, i)
}

pub fn starts_with_exec(s: &[char], p: &str) -> (r: bool)
    ensures
        r == starts_with(s@, p@),
{
    let n = p.unicode_len();
    if n > s.len() {
        return false;
    }
    let head = slice_chars(s, 0, n);
    eq_str(&head, p)
}

pub fn ends_with_exec(s: &[char], p: &str) -> (r: bool)
    ensures
        r == ends_with(s@, p@),
{
    let n = p.unicode_len();
    if n > s.len() {
        return false;
    }
    let tail = slice_chars(s, s.len() - n, s.len());
    eq_str(&tail, p)
}

/// Whether `p` occurs in `s` starting at position `i`.
pub fn occurs_at_exec(s: &[char], p: &[char], i: usize) -> (r: bool)
    ensures
        r == occurs_at(s@, p@, i as int),
{
    if p.len() > s.len() || i > s.len() - p.len() {
        return false;
    }
    let mut j: usize = 0;
    while j < p.len()
        invariant
            i + p@.len() <= s@.len(),
            s@.len() == s.len(),
            p@.len() == p.len(),
            j <= p@.len(),
            forall|k: int| 0 <= k < j ==> s@[i + k] == p@[k],
        decreases p.len() - j,
    {
        let k = i + j;
        if s[k] != p[j] {
            proof {
                assert(s@.subrange(i as int, i + p@.len())[j as int] != p@[j as int]);
            }
            return false;
        }
        j = j + 1;
    }
    proof {
        assert(s@.subrange(i as int, i + p@.len()) =~= p@);
    }
    true
}

/// Whether `p` occurs anywhere in `s`.
pub fn contains_exec(s: &[char], p: &str) -> (r: bool)
    ensures
        r == contains_seq(s@, p@),
{
    let pv = chars_of(p);
    if pv.len() > s.len() {
        proof {
            assert forall|i: int| !occurs_at(s@, p@, i) by {}
        }
        return false;
    }
    let last = s.len() - pv.len();
    let mut i: usize = 0;
    while i <= last
        invariant
            pv@ == p@,
            last + pv@.len() == s@.len(),
            forall|k: int| 0 <= k < i ==> !occurs_at(s@, p@, k),
        decreases last + 1 - i,
    {
        if occurs_at_exec(s, &pv, i) {
            return true;
        }
        if i == last {
            proof {
                assert forall|k: int| !occurs_at(s@, p@, k) by {
                    if 0 <= k && k + p@.len() <= s@.len() {
                        assert(k <= last);
                    }
                }
            }
            return false;
        }
        i = i + 1;
    }
    false
}

/// Whether a character occurs in a sequence.
pub fn has_char_exec(s: &[char], c: char) -> (r: bool)
    ensures
        r == s@.contains(c),
{
    let mut i: usize = 0;
    while i < s.len()
        invariant
            i <= s.len(),
            forall|k: int| 0 <= k < i ==> s@[k] != c,
        decreases s.len() - i,
    {
        if s[i] == c {
            return true;
        }
        i = i + 1;
    }
    false
}

// ---------------------------------------------------------------------------
// Whitespace and trimming (`char::is_whitespace`, `str::trim*`)
// ---------------------------------------------------------------------------

/// The Unicode `White_Space` characters, as `char::is_whitespace` documents them.
pub open spec fn is_ws(c: char) -> bool {
    ('\u{9}' <= c && c <= '\u{D}') || c == ' ' || c == '\u{85}' || c == '\u{A0}'
        || c == '\u{1680}' || ('\u{2000}' <= c && c <= '\u{200A}') || c == '\u{2028}'
        || c == '\u{2029}' || c == '\u{202F}' || c == '\u{205F}' || c == '\u{3000}'
}

pub fn is_ws_exec(c: char) -> (r: bool)
    ensures
        r == is_ws(c),
{
    ('\u{9}' <= c && c <= '\u{D}') || c == ' ' || c == '\u{85}' || c == '\u{A0}'
        || c == '\u{1680}' || ('\u{2000}' <= c && c <= '\u{200A}') || c == '\u{2028}'
        || c == '\u{2029}' || c == '\u{202F}' || c == '\u{205F}' || c == '\u{3000}'
}

pub open spec fn trim_start(s: Seq<char>) -> Seq<char>
    decreases s.len(),
{
    if s.len() > 0 && is_ws(s[0]) {
        trim_start(s.drop_first())
    } else {
        s
    }
}

pub open spec fn trim_end(s: Seq<char>) -> Seq<char>
    decreases s.len(),
{
    if s.len() > 0 && is_ws(s.last()) {
        trim_end(s.drop_last())
    } else {
        s
    }
}

pub open spec fn trim(s: Seq<char>) -> Seq<char> {
    trim_end(trim_start(s))
}

pub fn trim_start_exec(s: &[char]) -> (r: Vec<char>)
    ensures
        r@ == trim_start(s@),
{
    let mut i: usize = 0;
    proof {
        assert(s@.subrange(0, s@.len() as int) =~= s@);
    }
    while i < s.len() && is_ws_exec(s[i])
        invariant
            i <= s.len(),
            trim_start(s@) == trim_start(s@.subrange(i as int, s@.len() as int)),
        decreases s.len() - i,
    {
        proof {
            assert(s@.subrange(i as int, s@.len() as int).drop_first()
                =~= s@.subrange(i + 1, s@.len() as int));
        }
        i = i + 1;
    }
    slice_chars(s, i, s.len())
}

pub fn trim_end_exec(s: &[char]) -> (r: Vec<char>)
    ensures
        r@ == trim_end(s@),
{
    let mut j: usize = s.len();
    proof {
        assert(s@.subrange(0, s@.len() as int) =~= s@);
    }
    while j > 0 && is_ws_exec(s[j - 1])
        invariant
            j <= s.len(),
            trim_end(s@) == trim_end(s@.subrange(0, j as int)),
        decreases j,
    {
        proof {
            assert(s@.subrange(0, j as int).drop_last() =~= s@.subrange(0, j - 1));
        }
        j = j - 1;
    }
    slice_chars(s, 0, j)
}

pub fn trim_exec(s: &[char]) -> (r: Vec<char>)
    ensures
        r@ == trim(s@),
{
    let a = trim_start_exec(s);
    trim_end_exec(&a)
}

// ---------------------------------------------------------------------------
// Number formatting (`{:X}`, `{:x}`, `{}`)
// ---------------------------------------------------------------------------

pub open spec fn digit_char(d: nat, upper: bool) -> char {
    if d < 10 {
        (d + 48) as char
    } else if upper {
        (d + 55) as char
    } else {
        (d + 87) as char
    }
}

/// Hexadecimal digits of `n` without leading zeros (`{:X}` when `upper`, `{:x}` otherwise).
pub open spec fn hex_text(n: nat, upper: bool) -> Seq<char>
    decreases n,
{
    if n < 16 {
        seq![digit_char(n, upper)]
    } else {
        hex_text(n / 16, upper).push(digit_char(n % 16, upper))
    }
}

/// Decimal digits of `n` without leading zeros.
pub open spec fn dec_text(n: nat) -> Seq<char>
    decreases n,
{
    if n < 10 {
        seq![digit_char(n, false)]
    } else {
        dec_text(n / 10).push(digit_char(n % 10, false))
    }
}

/// Reading the decimal text of `n` back gives `n`.
pub proof fn lemma_dec_text_value(n: nat)
    ensures
        digits_value(dec_text(n), 10) == n,
        dec_text(n).len() > 0,
    decreases n,
{
    let t = dec_text(n);
    let d = (n % 10) as nat;
    let c = digit_char(d, false);
    assert(c == (d + 48) as char);
    assert(digit_value(c) == d);
    if n >= 10 {
        lemma_dec_text_value(n / 10);
        assert(t.drop_last() == dec_text(n / 10));
        assert(t.last() == c);
        assert(digits_value(t, 10) == (n / 10) * 10 + d);
    } else {
        assert(t.drop_last() =~= seq![]);
        assert(t.last() == c);
        assert(digits_value(t.drop_last(), 10) == 0);
    }
}

/// Reading the hexadecimal text of `n` back gives `n`, in either case.
pub proof fn lemma_hex_text_value(n: nat, upper: bool)
    ensures
        digits_value(hex_text(n, upper), 16) == n,
        hex_text(n, upper).len() > 0,
    decreases n,
{
    let t = hex_text(n, upper);
    let d = (n % 16) as nat;
    let c = digit_char(d, upper);
    assert(digit_value(c) == d);
    if n >= 16 {
        lemma_hex_text_value(n / 16, upper);
        assert(t.drop_last() == hex_text(n / 16, upper));
        assert(t.last() == c);
        assert(digits_value(t, 16) == (n / 16) * 16 + d);
    } else {
        assert(t.drop_last() =~= seq![]);
        assert(t.last() == c);
        assert(digits_value(t.drop_last(), 16) == 0);
    }
}

/// Decimal text of a signed integer (`{}`).
pub open spec fn int_text(v: int) -> Seq<char> {
    if v < 0 {
        seq!['-'] + dec_text((-v) as nat)
    } else {
        dec_text(v as nat)
    }
}

pub fn digit_char_exec(d: u64, upper: bool) -> (c: char)
    requires
        d < 16,
    ensures
        c == digit_char(d as nat, upper),
{
    if d < 10 {
        ((d as u8) + 48) as char
    } else if upper {
        ((d as u8) + 55) as char
    } else {
        ((d as u8) + 87) as char
    }
}

/// Appends the hexadecimal digits of `n`.
pub fn push_hex(out: &mut Vec<char>, n: u64, upper: bool)
    ensures
        final(out)@ == old(out)@ + hex_text(n as nat, upper),
    decreases n,
{
    if n < 16 {
        out.push(digit_char_exec(n, upper));
        proof {
            assert(old(out)@ + hex_text(n as nat, upper) =~= old(out)@.push(digit_char(n as nat, upper)));
        }
    } else {
        push_hex(out, n / 16, upper);
        out.push(digit_char_exec(n % 16, upper));
        proof {
            assert(final(out)@ =~= old(out)@ + hex_text(n as nat, upper)) by {
                assert(hex_text(n as nat, upper) == hex_text((n / 16) as nat, upper).push(
                    digit_char((n % 16) as nat, upper),
                ));
            }
        }
    }
}

/// Appends the decimal digits of `n`.
pub fn push_dec(out: &mut Vec<char>, n: u64)
    ensures
        final(out)@ == old(out)@ + dec_text(n as nat),
    decreases n,
{
    if n < 10 {
        out.push(digit_char_exec(n, false));
        proof {
            assert(old(out)@ + dec_text(n as nat) =~= old(out)@.push(digit_char(n as nat, false)));
        }
    } else {
        push_dec(out, n / 10);
        out.push(digit_char_exec(n % 10, false));
        proof {
            assert(final(out)@ =~= old(out)@ + dec_text(n as nat)) by {
                assert(dec_text(n as nat) == dec_text((n / 10) as nat).push(digit_char((n % 10) as nat, false)));
            }
        }
    }
}

/// Appends the decimal text of a signed integer.
pub fn push_int(out: &mut Vec<char>, v: i64)
    ensures
        final(out)@ == old(out)@ + int_text(v as int),
{
    if v < 0 {
        out.push('-');
        let m: u64 = if v == i64::MIN {
            9223372036854775808u64
        } else {
            (-v) as u64
        };
        push_dec(out, m);
        proof {
            assert(final(out)@ =~= old(out)@ + int_text(v as int));
        }
    } else {
        push_dec(out, v as u64);
    }
}

// ---------------------------------------------------------------------------
// Number parsing (`from_str_radix`, `str::parse`)
// ---------------------------------------------------------------------------

pub open spec fn digit_value(c: char) -> int {
    if '0' <= c && c <= '9' {
        c as int - 48
    } else if 'a' <= c && c <= 'z' {
        c as int - 87
    } else if 'A' <= c && c <= 'Z' {
        c as int - 55
    } else {
        99
    }
}

/// Whether `c` is a digit in the given radix (2..=36).
pub open spec fn is_digit_in(c: char, radix: int) -> bool {
    digit_value(c) < radix
}

pub open spec fn all_digits(s: Seq<char>, radix: int) -> bool {
    forall|i: int| 0 <= i < s.len() ==> is_digit_in(#[trigger] s[i], radix)
}

/// The value of a digit string, most significant digit first.
pub open spec fn digits_value(s: Seq<char>, radix: int) -> int
    decreases s.len(),
{
    if s.len() == 0 {
        0
    } else {
        digits_value(s.drop_last(), radix) * radix + digit_value(s.last())
    }
}

pub open spec fn is_hex_digit(c: char) -> bool {
    ('0' <= c && c <= '9') || ('a' <= c && c <= 'f') || ('A' <= c && c <= 'F')
}

pub fn is_hex_digit_exec(c: char) -> (r: bool)
    ensures
        r == is_hex_digit(c),
{
    ('0' <= c && c <= '9') || ('a' <= c && c <= 'f') || ('A' <= c && c <= 'F')
}

/// The value of a digit string is never negative.
pub proof fn lemma_digits_value_nonneg(s: Seq<char>, radix: int)
    requires
        all_digits(s, radix),
        radix >= 2,
    ensures
        digits_value(s, radix) >= 0,
    decreases s.len(),
{
    if s.len() > 0 {
        lemma_digits_value_nonneg(s.drop_last(), radix);
        assert(is_digit_in(s[s.len() - 1], radix));
        assert(digits_value(s.drop_last(), radix) * radix >= 0) by (nonlinear_arith)
            requires
                digits_value(s.drop_last(), radix) >= 0,
                radix >= 2,
        ;
    }
}

/// Dropping the last digit does not increase the value.
pub proof fn lemma_digits_value_mono(s: Seq<char>, radix: int)
    requires
        all_digits(s, radix),
        radix >= 2,
        s.len() > 0,
    ensures
        digits_value(s, radix) >= digits_value(s.drop_last(), radix) * radix,
        digits_value(s.drop_last(), radix) <= digits_value(s, radix),
{
    lemma_digits_value_nonneg(s.drop_last(), radix);
    assert(digits_value(s.drop_last(), radix) * radix >= digits_value(s.drop_last(), radix))
        by (nonlinear_arith)
        requires
            digits_value(s.drop_last(), radix) >= 0,
            radix >= 2,
    ;
}

/// What `u64::from_str_radix(s, radix)` returns, as its documentation
/// describes: an optional `+`, then at least one digit of the radix.
pub open spec fn parse_u64_spec(s: Seq<char>, radix: int) -> Option<u64> {
    let digits = if s.len() > 0 && s[0] == '+' { s.drop_first() } else { s };
    if digits.len() == 0 || !all_digits(digits, radix) || digits_value(digits, radix)
        > u64::MAX {
        None
    } else {
        Some(digits_value(digits, radix) as u64)
    }
}

/// What `i64::from_str_radix(s, radix)` returns: an optional sign, then at
/// least one digit of the radix, and a value in range.
pub open spec fn parse_i64_spec(s: Seq<char>, radix: int) -> Option<i64> {
    let neg = s.len() > 0 && s[0] == '-';
    let digits = if s.len() > 0 && (s[0] == '+' || s[0] == '-') {
        s.drop_first()
    } else {
        s
    };
    if digits.len() == 0 || !all_digits(digits, radix) {
        None
    } else if neg {
        if -digits_value(digits, radix) < i64::MIN {
            None
        } else {
            Some((-digits_value(digits, radix)) as i64)
        }
    } else if digits_value(digits, radix) > i64::MAX {
        None
    } else {
        Some(digits_value(digits, radix) as i64)
    }
}

pub fn digit_value_exec(c: char) -> (r: u64)
    ensures
        r as int == digit_value(c),
{
    if '0' <= c && c <= '9' {
        (c as u64) - 48
    } else if 'a' <= c && c <= 'z' {
        (c as u64) - 87
    } else if 'A' <= c && c <= 'Z' {
        (c as u64) - 55
    } else {
        99
    }
}

/// The value of a digit string, or `None` if a character is not a digit of
/// the radix or the value exceeds `limit`.
pub fn digits_value_bounded(s: &[char], radix: u64, limit: u64) -> (r: Option<u64>)
    requires
        2 <= radix <= 36,
        limit >= 36,
    ensures
        match r {
            Some(v) => all_digits(s@, radix as int) && v as int == digits_value(s@, radix as int)
                && v <= limit,
            None => !all_digits(s@, radix as int) || digits_value(s@, radix as int) > limit,
        },
{
    let mut acc: u64 = 0;
    let mut i: usize = 0;
    while i < s.len()
        invariant
            2 <= radix <= 36,
            limit >= 36,
            i <= s.len(),
            all_digits(s@.subrange(0, i as int), radix as int),
            acc as int == digits_value(s@.subrange(0, i as int), radix as int),
            acc <= limit,
        decreases s.len() - i,
    {
        let d = digit_value_exec(s[i]);
        let ghost pre = s@.subrange(0, i as int);
        let ghost next = s@.subrange(0, i + 1);
        proof {
            assert(next.drop_last() =~= pre);
            assert(next.last() == s@[i as int]);
        }
        if d >= radix {
            proof {
                assert(!is_digit_in(s@[i as int], radix as int));
            }
            return None;
        }
        proof {
            assert(all_digits(next, radix as int)) by {
                assert forall|k: int| 0 <= k < next.len() implies is_digit_in(#[trigger] next[k], radix as int) by {
                    if k < i {
                        assert(next[k] == pre[k]);
                    }
                }
            }
        }
        let q = (limit - d) / radix;
        if acc > q {
            proof {
                assert(acc * radix + d > limit) by (nonlinear_arith)
                    requires
                        acc > q,
                        q as int == (limit as int - d as int) / (radix as int),
                        radix >= 2,
                        d < radix,
                        d <= limit,
                ;
                // the whole string either has a non-digit or a value at least this prefix's
                lemma_prefix_value_bound(s@, i + 1, radix as int);
            }
            return None;
        }
        proof {
            assert(acc * radix + d <= limit) by (nonlinear_arith)
                requires
                    acc <= q,
                    q as int == (limit as int - d as int) / (radix as int),
                    radix >= 2,
                    d <= limit,
            ;
        }
        acc = acc * radix + d;
        i = i + 1;
    }
    proof {
        assert(s@.subrange(0, s@.len() as int) =~= s@);
    }
    Some(acc)
}

/// A longer digit prefix has a value at least as large as a shorter one.
pub proof fn lemma_prefix_value_bound(s: Seq<char>, k: int, radix: int)
    requires
        0 <= k <= s.len(),
        radix >= 2,
    ensures
        all_digits(s, radix) ==> digits_value(s, radix) >= digits_value(s.subrange(0, k), radix),
    decreases s.len() - k,
{
    if k < s.len() && all_digits(s, radix) {
        lemma_prefix_value_bound(s, k + 1, radix);
        let a = s.subrange(0, k + 1);
        assert(a.drop_last() =~= s.subrange(0, k));
        assert(all_digits(a, radix)) by {
            assert forall|j: int| 0 <= j < a.len() implies is_digit_in(#[trigger] a[j], radix) by {
                assert(a[j] == s[j]);
            }
        }
        lemma_digits_value_mono(a, radix);
    } else if k == s.len() {
        assert(s.subrange(0, k) =~= s);
    }
}

/// `u64::from_str_radix(s, radix)`, written out.
pub fn parse_u64_radix(s: &[char], radix: u64) -> (r: Option<u64>)
    requires
        2 <= radix <= 36,
    ensures
        r == parse_u64_spec(s@, radix as int),
{
    let digits = if s.len() > 0 && s[0] == '+' {
        slice_chars(s, 1, s.len())
    } else {
        slice_chars(s, 0, s.len())
    };
    proof {
        assert(s@.subrange(0, s@.len() as int) =~= s@);
        assert(s@.len() > 0 ==> s@.subrange(1, s@.len() as int) =~= s@.drop_first());
    }
    if digits.len() == 0 {
        return None;
    }
    digits_value_bounded(&digits, radix, u64::MAX)
}

/// `i64::from_str_radix(s, radix)`, written out.
pub fn parse_i64_radix(s: &[char], radix: u64) -> (r: Option<i64>)
    requires
        2 <= radix <= 36,
    ensures
        r == parse_i64_spec(s@, radix as int),
{
    let neg = s.len() > 0 && s[0] == '-';
    let digits = if s.len() > 0 && (s[0] == '+' || s[0] == '-') {
        slice_chars(s, 1, s.len())
    } else {
        slice_chars(s, 0, s.len())
    };
    proof {
        assert(s@.subrange(0, s@.len() as int) =~= s@);
        assert(s@.len() > 0 ==> s@.subrange(1, s@.len() as int) =~= s@.drop_first());
    }
    if digits.len() == 0 {
        return None;
    }
    if neg {
        match digits_value_bounded(&digits, radix, 9223372036854775808u64) {
            Some(v) => {
                if v == 9223372036854775808u64 {
                    Some(i64::MIN)
                } else {
                    Some(-(v as i64))
                }
            },
            None => None,
        }
    } else {
        match digits_value_bounded(&digits, radix, 9223372036854775807u64) {
            Some(v) => Some(v as i64),
            None => None,
        }
    }
}

} // verus!
