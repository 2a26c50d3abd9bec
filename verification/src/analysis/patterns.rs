//! Code pattern matching: regular expressions over the text of an
//! instruction run (instructions joined by `"; "`).

use crate::disasm::control_flow::Instruction;
use crate::disasm::x86::{display_text, X86InstructionV};
use crate::disasm::ir::opt_str_v;
use crate::text::{chars_of, extend_chars, extend_slice, string_of};
use vstd::prelude::*;

verus! {

/// Pattern match result. The confidence is in hundredths (`90` is 0.9).
#[derive(Debug, Clone)]
pub struct PatternMatch {
    pub pattern_name: String,
    pub address: u64,
    pub confidence_percent: u8,
    pub metadata: String,
}

pub struct PatternMatchV {
    pub pattern_name: Seq<char>,
    pub address: u64,
    pub confidence_percent: u8,
    pub metadata: Seq<char>,
}

impl View for PatternMatch {
    type V = PatternMatchV;

    open spec fn view(&self) -> PatternMatchV {
        PatternMatchV {
            pattern_name: self.pattern_name@,
            address: self.address,
            confidence_percent: self.confidence_percent,
            metadata: self.metadata@,
        }
    }
}

/// A code pattern: its name, its regular expression and its confidence.
struct Pattern {
    name: String,
    regex: String,
    confidence_percent: u8,
}

/// Pattern matcher
pub struct PatternMatcher {
    /// Known patterns
    patterns: Vec<Pattern>,
}

/// What `regex::Regex::new(pattern)` and then `find(text)` give: `None` when
/// the pattern does not compile, else the leftmost-first match's text, if any.
pub uninterp spec fn regex_find_result(pattern: Seq<char>, text: Seq<char>) -> Option<Option<Seq<char>>>;

/// `regex::Regex::new` then `Regex::find` and `Match::as_str`: the outer
/// `None` when the pattern does not compile.
#[verifier::external_body]
fn regex_find(pattern: &str, text: &str) -> (r: Option<Option<String>>)
    ensures
        match r {
            Some(m) => regex_find_result(pattern@, text@) == Some(opt_str_v(m)),
            None => regex_find_result(pattern@, text@) is None,
        },
{
    match regex::Regex::new(pattern) {
        Ok(re) => Some(re.find(text).map(|m| m.as_str().to_string())),
        Err(_) => None,
    }
}

/// `regex::Regex::new` then `Regex::is_match`, which is true exactly when
/// `find` finds a match; `None` when the pattern does not compile.
#[verifier::external_body]
fn regex_is_match(pattern: &str, text: &str) -> (r: Option<bool>)
    ensures
        match r {
            Some(b) => regex_find_result(pattern@, text@) matches Some(m) && b == (m is Some),
            None => regex_find_result(pattern@, text@) is None,
        },
{
    match regex::Regex::new(pattern) {
        Ok(re) => Some(re.is_match(text)),
        Err(_) => None,
    }
}

/// The built-in patterns: name, regular expression, confidence in hundredths.
pub open spec fn builtin_patterns() -> Seq<(Seq<char>, Seq<char>, u8)> {
    seq![
        ("function_prologue_x86"@, "push (ebp|rbp);\\s*mov (ebp|rbp), (esp|rsp)"@, 90u8),
        ("function_prologue_x64"@, "push rbp;\\s*mov rbp, rsp"@, 90u8),
        ("string_copy"@, "mov (eax|rax),\\s*\\[.*\\];\\s*test (eax|rax),\\s*(eax|rax)"@, 70u8),
        ("for_loop"@, "dec (eax|ecx|rcx);\\s*jnz"@, 80u8),
        ("while_loop"@, "cmp.*;\\s*j[ne|ge|le]"@, 70u8),
        ("malloc_call"@, "call.*malloc"@, 95u8),
        ("free_call"@, "call.*free"@, 95u8),
    ]
}

spec fn pattern_v(p: Pattern) -> (Seq<char>, Seq<char>, u8) {
    (p.name@, p.regex@, p.confidence_percent)
}

impl View for PatternMatcher {
    type V = Seq<(Seq<char>, Seq<char>, u8)>;

    closed spec fn view(&self) -> Seq<(Seq<char>, Seq<char>, u8)> {
        self.patterns@.map_values(|p: Pattern| pattern_v(p))
    }
}

/// The instructions' texts joined by `"; "`.
pub open spec fn joined_text(s: Seq<X86InstructionV>) -> Seq<char>
    decreases s.len(),
{
    if s.len() == 0 {
        seq![]
    } else if s.len() == 1 {
        display_text(s[0])
    } else {
        joined_text(s.drop_last()) + "; "@ + display_text(s.last())
    }
}

/// The matches of the patterns over the joined text, in pattern order, all at
/// the first instruction's address (0 for none).
pub open spec fn run_matches(
    ps: Seq<(Seq<char>, Seq<char>, u8)>,
    text: Seq<char>,
    address: u64,
) -> Seq<PatternMatchV>
    decreases ps.len(),
{
    if ps.len() == 0 {
        seq![]
    } else {
        let r = run_matches(ps.drop_last(), text, address);
        let p = ps.last();
        match regex_find_result(p.1, text) {
            Some(Some(m)) => r.push(
                PatternMatchV { pattern_name: p.0, address, confidence_percent: p.2, metadata: m },
            ),
            _ => r,
        }
    }
}

/// The patterns that match one instruction's text, its text as metadata.
pub open spec fn instruction_matches(
    ps: Seq<(Seq<char>, Seq<char>, u8)>,
    text: Seq<char>,
    address: u64,
) -> Seq<PatternMatchV>
    decreases ps.len(),
{
    if ps.len() == 0 {
        seq![]
    } else {
        let r = instruction_matches(ps.drop_last(), text, address);
        let p = ps.last();
        match regex_find_result(p.1, text) {
            Some(Some(m)) => r.push(
                PatternMatchV { pattern_name: p.0, address, confidence_percent: p.2, metadata: text },
            ),
            _ => r,
        }
    }
}

fn pattern(name: &str, regex: &str, confidence_percent: u8) -> (r: Pattern)
    ensures
        pattern_v(r) == (name@, regex@, confidence_percent),
{
    Pattern { name: name.to_string(), regex: regex.to_string(), confidence_percent }
}

impl PatternMatcher {
    /// Create a new pattern matcher with the built-in patterns.
    pub fn new() -> (r: Self)
        ensures
            r@ == builtin_patterns(),
    {
        let mut patterns: Vec<Pattern> = Vec::new();
        // Common function prologues
        patterns.push(pattern("function_prologue_x86", "push (ebp|rbp);\\s*mov (ebp|rbp), (esp|rsp)", 90));
        patterns.push(pattern("function_prologue_x64", "push rbp;\\s*mov rbp, rsp", 90));
        // String operations
        patterns.push(pattern("string_copy", "mov (eax|rax),\\s*\\[.*\\];\\s*test (eax|rax),\\s*(eax|rax)", 70));
        // Loop patterns
        patterns.push(pattern("for_loop", "dec (eax|ecx|rcx);\\s*jnz", 80));
        patterns.push(pattern("while_loop", "cmp.*;\\s*j[ne|ge|le]", 70));
        // Memory allocation
        patterns.push(pattern("malloc_call", "call.*malloc", 95));
        patterns.push(pattern("free_call", "call.*free", 95));
        let r = PatternMatcher { patterns };
        proof {
            assert(r@ =~= builtin_patterns());
        }
        r
    }

    /// The names of the patterns, in order.
    pub fn pattern_names(&self) -> (r: Vec<String>)
        ensures
            r@.len() == self@.len(),
            forall|i: int| 0 <= i < r@.len() ==> #[trigger] r@[i]@ == self@[i].0,
    {
        let mut out: Vec<String> = Vec::new();
        let mut i: usize = 0;
        while i < self.patterns.len()
            invariant
                i <= self.patterns@.len(),
                out@.len() == i,
                forall|j: int| 0 <= j < i ==> #[trigger] out@[j]@ == self@[j].0,
            decreases self.patterns@.len() - i,
        {
            out.push(self.patterns[i].name.clone());
            i = i + 1;
        }
        out
    }

    /// The confidences of the patterns, in hundredths, in order.
    pub fn pattern_confidences(&self) -> (r: Vec<u8>)
        ensures
            r@.len() == self@.len(),
            forall|i: int| 0 <= i < r@.len() ==> #[trigger] r@[i] == self@[i].2,
    {
        let mut out: Vec<u8> = Vec::new();
        let mut i: usize = 0;
        while i < self.patterns.len()
            invariant
                i <= self.patterns@.len(),
                out@.len() == i,
                forall|j: int| 0 <= j < i ==> #[trigger] out@[j] == self@[j].2,
            decreases self.patterns@.len() - i,
        {
            out.push(self.patterns[i].confidence_percent);
            i = i + 1;
        }
        out
    }

    /// Match patterns in instructions
    pub fn match_patterns(&self, instructions: &[Instruction]) -> (r: Vec<PatternMatch>)
        ensures
            r@.map_values(|m: PatternMatch| m@) == run_matches(
                self@,
                joined_text(instructions@.map_values(|i: Instruction| i@)),
                if instructions@.len() > 0 {
                    instructions@[0]@.address
                } else {
                    0
                },
            ),
    {
        let ghost s = instructions@.map_values(|i: Instruction| i@);
        // Build instruction string for pattern matching
        let mut text: Vec<char> = Vec::new();
        let mut i: usize = 0;
        proof {
            assert(s.take(0) =~= seq![]);
        }
        while i < instructions.len()
            invariant
                i <= instructions@.len(),
                s == instructions@.map_values(|i: Instruction| i@),
                text@ == joined_text(s.take(i as int)),
            decreases instructions@.len() - i,
        {
            proof {
                assert(s.take(i + 1).drop_last() =~= s.take(i as int));
                assert(s[i as int] == instructions@[i as int]@);
            }
            if i > 0 {
                extend_chars(&mut text, "; ");
            }
            let t = match &instructions[i] {
                Instruction::X86(x) => x.to_string(),
            };
            extend_chars(&mut text, t.as_str());
            proof {
                if i == 0 {
                    assert(text@ =~= joined_text(s.take(1)));
                }
            }
            i = i + 1;
        }
        proof {
            assert(s.take(i as int) =~= s);
        }
        let text = string_of(&text);
        let address = if instructions.len() > 0 {
            instructions[0].address()
        } else {
            0
        };
        let mut matches: Vec<PatternMatch> = Vec::new();
        let mut k: usize = 0;
        proof {
            assert(self@.take(0) =~= seq![]);
            assert(matches@.map_values(|m: PatternMatch| m@) =~= seq![]);
        }
        while k < self.patterns.len()
            invariant
                k <= self.patterns@.len(),
                self@ == self.patterns@.map_values(|p: Pattern| pattern_v(p)),
                matches@.map_values(|m: PatternMatch| m@) == run_matches(self@.take(k as int), text@, address),
            decreases self.patterns@.len() - k,
        {
            proof {
                assert(self@.take(k + 1).drop_last() =~= self@.take(k as int));
                assert(self@[k as int] == pattern_v(self.patterns@[k as int]));
            }
            let p = &self.patterns[k];
            let ghost before = matches@.map_values(|m: PatternMatch| m@);
            match regex_find(p.regex.as_str(), text.as_str()) {
                Some(Some(m)) => {
                    let x = PatternMatch {
                        pattern_name: p.name.clone(),
                        address,
                        confidence_percent: p.confidence_percent,
                        metadata: m,
                    };
                    matches.push(x);
                    proof {
                        assert(matches@.map_values(|m: PatternMatch| m@) =~= before.push(x@));
                    }
                },
                _ => {},
            }
            k = k + 1;
        }
        proof {
            assert(self@.take(k as int) =~= self@);
        }
        matches
    }

    /// Match single instruction patterns
    pub fn match_instruction(&self, instr: &Instruction) -> (r: Vec<PatternMatch>)
        ensures
            r@.map_values(|m: PatternMatch| m@) == instruction_matches(
                self@,
                display_text(instr@),
                instr@.address,
            ),
    {
        let text = match instr {
            Instruction::X86(x) => x.to_string(),
        };
        let address = instr.address();
        let mut matches: Vec<PatternMatch> = Vec::new();
        let mut k: usize = 0;
        proof {
            assert(self@.take(0) =~= seq![]);
            assert(matches@.map_values(|m: PatternMatch| m@) =~= seq![]);
        }
        while k < self.patterns.len()
            invariant
                k <= self.patterns@.len(),
                self@ == self.patterns@.map_values(|p: Pattern| pattern_v(p)),
                matches@.map_values(|m: PatternMatch| m@) == instruction_matches(
                    self@.take(k as int),
                    text@,
                    address,
                ),
            decreases self.patterns@.len() - k,
        {
            proof {
                assert(self@.take(k + 1).drop_last() =~= self@.take(k as int));
                assert(self@[k as int] == pattern_v(self.patterns@[k as int]));
            }
            let p = &self.patterns[k];
            let ghost before = matches@.map_values(|m: PatternMatch| m@);
            match regex_is_match(p.regex.as_str(), text.as_str()) {
                Some(true) => {
                    let x = PatternMatch {
                        pattern_name: p.name.clone(),
                        address,
                        confidence_percent: p.confidence_percent,
                        metadata: text.clone(),
                    };
                    matches.push(x);
                    proof {
                        assert(matches@.map_values(|m: PatternMatch| m@) =~= before.push(x@));
                    }
                },
                _ => {},
            }
            k = k + 1;
        }
        proof {
            assert(self@.take(k as int) =~= self@);
        }
        matches
    }
}

impl Default for PatternMatcher {
    fn default() -> (r: Self)
        ensures
            r@ == builtin_patterns(),
    {
        PatternMatcher::new()
    }
}

} // verus!
