//! Type information for variables and expressions.

use crate::disasm::control_flow::Instruction;
use crate::disasm::ir::opt_str_v;
use crate::disasm::x86::X86Instruction;
use crate::text::{
    chars_of, contains_exec, contains_seq, dec_text, eq_chars, eq_str, lower_chars, lower_seq,
    parse_u64_radix, parse_u64_spec, trim, trim_exec,
};
use vstd::prelude::*;

verus! {

broadcast use vstd::std_specs::vec::group_vec_axioms;

/// Type information
#[derive(Debug, PartialEq, Eq)]
pub enum TypeInfo {
    /// Void type
    Void,
    /// Boolean
    Bool,
    /// 8-bit signed integer
    I8,
    /// 8-bit unsigned integer
    U8,
    /// 16-bit signed integer
    I16,
    /// 16-bit unsigned integer
    U16,
    /// 32-bit signed integer
    I32,
    /// 32-bit unsigned integer
    U32,
    /// 64-bit signed integer
    I64,
    /// 64-bit unsigned integer
    U64,
    /// Pointer
    Pointer(Box<TypeInfo>),
    /// Array
    Array(Box<TypeInfo>, usize),
    /// Function pointer
    FunctionPointer { params: Vec<TypeInfo>, return_type: Box<TypeInfo> },
    /// Unknown
    Unknown,
}

/// The mathematical value of a type: parameter lists are sequences.
pub enum TypeV {
    Void,
    Bool,
    I8,
    U8,
    I16,
    U16,
    I32,
    U32,
    I64,
    U64,
    Pointer(Box<TypeV>),
    Array(Box<TypeV>, usize),
    FunctionPointer { params: Seq<TypeV>, return_type: Box<TypeV> },
    Unknown,
}

/// The view of a type, by structural recursion.
pub open spec fn type_v(t: &TypeInfo) -> TypeV
    decreases t,
{
    match t {
        TypeInfo::Void => TypeV::Void,
        TypeInfo::Bool => TypeV::Bool,
        TypeInfo::I8 => TypeV::I8,
        TypeInfo::U8 => TypeV::U8,
        TypeInfo::I16 => TypeV::I16,
        TypeInfo::U16 => TypeV::U16,
        TypeInfo::I32 => TypeV::I32,
        TypeInfo::U32 => TypeV::U32,
        TypeInfo::I64 => TypeV::I64,
        TypeInfo::U64 => TypeV::U64,
        TypeInfo::Pointer(inner) => TypeV::Pointer(Box::new(type_v(inner))),
        TypeInfo::Array(inner, n) => TypeV::Array(Box::new(type_v(inner)), *n),
        TypeInfo::FunctionPointer { params, return_type } => TypeV::FunctionPointer {
            params: types_v(params@),
            return_type: Box::new(type_v(return_type)),
        },
        TypeInfo::Unknown => TypeV::Unknown,
    }
}

/// The views of a list of types.
pub open spec fn types_v(s: Seq<TypeInfo>) -> Seq<TypeV>
    decreases s,
{
    Seq::new(s.len(), |i: int| if 0 <= i < s.len() { type_v(&s[i]) } else { arbitrary() })
}

impl View for TypeInfo {
    type V = TypeV;

    open spec fn view(&self) -> TypeV {
        type_v(self)
    }
}

/// A copy of a type with the same view.
pub fn clone_type(t: &TypeInfo) -> (r: TypeInfo)
    ensures
        r@ == t@,
    decreases t,
{
    match t {
        TypeInfo::Void => TypeInfo::Void,
        TypeInfo::Bool => TypeInfo::Bool,
        TypeInfo::I8 => TypeInfo::I8,
        TypeInfo::U8 => TypeInfo::U8,
        TypeInfo::I16 => TypeInfo::I16,
        TypeInfo::U16 => TypeInfo::U16,
        TypeInfo::I32 => TypeInfo::I32,
        TypeInfo::U32 => TypeInfo::U32,
        TypeInfo::I64 => TypeInfo::I64,
        TypeInfo::U64 => TypeInfo::U64,
        TypeInfo::Pointer(inner) => TypeInfo::Pointer(Box::new(clone_type(inner))),
        TypeInfo::Array(inner, n) => TypeInfo::Array(Box::new(clone_type(inner)), *n),
        TypeInfo::FunctionPointer { params, return_type } => {
            let ps = clone_types(params);
            let r = TypeInfo::FunctionPointer { params: ps, return_type: Box::new(clone_type(return_type)) };
            r
        },
        TypeInfo::Unknown => TypeInfo::Unknown,
    }
}

/// A copy of a list of types with the same views.
pub fn clone_types(v: &Vec<TypeInfo>) -> (r: Vec<TypeInfo>)
    ensures
        types_v(r@) == types_v(v@),
    decreases v,
{
    let mut out: Vec<TypeInfo> = Vec::new();
    let mut i: usize = 0;
    while i < v.len()
        invariant
            i <= v@.len(),
            out@.len() == i,
            forall|j: int| 0 <= j < i ==> type_v(&#[trigger] out@[j]) == type_v(&v@[j]),
        decreases v@.len() - i,
    {
        proof {
            vstd::std_specs::vec::axiom_vec_index_decreases(*v, i as int);
        }
        out.push(clone_type(&v[i]));
        i = i + 1;
    }
    proof {
        assert(types_v(out@) =~= types_v(v@));
    }
    out
}

impl Clone for TypeInfo {
    fn clone(&self) -> (r: Self)
        ensures
            r@ == self@,
    {
        clone_type(self)
    }
}


/// The C spelling of a type.
pub open spec fn c_type_name(t: TypeV) -> Seq<char> {
    match t {
        TypeV::Void => "void"@,
        TypeV::Bool => "bool"@,
        TypeV::I8 => "int8_t"@,
        TypeV::U8 => "uint8_t"@,
        TypeV::I16 => "int16_t"@,
        TypeV::U16 => "uint16_t"@,
        TypeV::I32 => "int32_t"@,
        TypeV::U32 => "uint32_t"@,
        TypeV::I64 => "int64_t"@,
        TypeV::U64 => "uint64_t"@,
        TypeV::Pointer(inner) => match *inner {
            TypeV::Void => "void*"@,
            TypeV::I8 => "char*"@,
            TypeV::U8 => "unsigned char*"@,
            _ => "void*"@,
        },
        TypeV::Array(inner, _) => match *inner {
            TypeV::I8 => "char[]"@,
            TypeV::U8 => "unsigned char[]"@,
            _ => "void[]"@,
        },
        TypeV::FunctionPointer { .. } => "void(*)()"@,
        TypeV::Unknown => "void*"@,
    }
}

pub open spec fn is_integer_type(t: TypeV) -> bool {
    t is I8 || t is U8 || t is I16 || t is U16 || t is I32 || t is U32 || t is I64 || t is U64
}

/// The size of a type in bytes, assuming a 64-bit target.
pub open spec fn type_size(t: TypeV) -> int
    decreases t,
{
    match t {
        TypeV::Void => 0,
        TypeV::Bool => 1,
        TypeV::I8 | TypeV::U8 => 1,
        TypeV::I16 | TypeV::U16 => 2,
        TypeV::I32 | TypeV::U32 => 4,
        TypeV::I64 | TypeV::U64 => 8,
        TypeV::Pointer(_) => 8,
        TypeV::Array(inner, n) => type_size(*inner) * n,
        TypeV::FunctionPointer { .. } => 8,
        TypeV::Unknown => 8,
    }
}

pub open spec fn is_unsigned_integer_type(t: TypeV) -> bool {
    t is U8 || t is U16 || t is U32 || t is U64
}

/// Law: an integer type is spelled the `<stdint.h>` way from its own size:
/// `u` when it is unsigned, then `int`, its width in bits (eight times its
/// size in bytes) in decimal, and `_t`.
pub proof fn lemma_integer_type_names(t: TypeV)
    requires
        is_integer_type(t),
    ensures
        c_type_name(t) == (if is_unsigned_integer_type(t) { "u"@ } else { Seq::<char>::empty() })
            + "int"@ + dec_text((8 * type_size(t)) as nat) + "_t"@,
{
    reveal_strlit("u");
    reveal_strlit("int");
    reveal_strlit("_t");
    reveal_with_fuel(dec_text, 3);
    match t {
        TypeV::I8 => {
            reveal_strlit("int8_t");
            assert(dec_text(8) =~= seq!['8']);
            assert(c_type_name(t) =~= Seq::<char>::empty() + "int"@ + dec_text(8) + "_t"@);
        },
        TypeV::U8 => {
            reveal_strlit("uint8_t");
            assert(dec_text(8) =~= seq!['8']);
            assert(c_type_name(t) =~= "u"@ + "int"@ + dec_text(8) + "_t"@);
        },
        TypeV::I16 => {
            reveal_strlit("int16_t");
            assert(dec_text(16) =~= seq!['1', '6']);
            assert(c_type_name(t) =~= Seq::<char>::empty() + "int"@ + dec_text(16) + "_t"@);
        },
        TypeV::U16 => {
            reveal_strlit("uint16_t");
            assert(dec_text(16) =~= seq!['1', '6']);
            assert(c_type_name(t) =~= "u"@ + "int"@ + dec_text(16) + "_t"@);
        },
        TypeV::I32 => {
            reveal_strlit("int32_t");
            assert(dec_text(32) =~= seq!['3', '2']);
            assert(c_type_name(t) =~= Seq::<char>::empty() + "int"@ + dec_text(32) + "_t"@);
        },
        TypeV::U32 => {
            reveal_strlit("uint32_t");
            assert(dec_text(32) =~= seq!['3', '2']);
            assert(c_type_name(t) =~= "u"@ + "int"@ + dec_text(32) + "_t"@);
        },
        TypeV::I64 => {
            reveal_strlit("int64_t");
            assert(dec_text(64) =~= seq!['6', '4']);
            assert(c_type_name(t) =~= Seq::<char>::empty() + "int"@ + dec_text(64) + "_t"@);
        },
        TypeV::U64 => {
            reveal_strlit("uint64_t");
            assert(dec_text(64) =~= seq!['6', '4']);
            assert(c_type_name(t) =~= "u"@ + "int"@ + dec_text(64) + "_t"@);
        },
        _ => {},
    }
}

/// Every size computed on the way to `type_size(t)` fits in a `usize`.
pub open spec fn size_fits(t: TypeV) -> bool
    decreases t,
{
    type_size(t) <= usize::MAX && match t {
        TypeV::Array(inner, _) => size_fits(*inner),
        _ => true,
    }
}

impl TypeInfo {
    /// Get the C type name
    pub fn to_c_type(&self) -> (r: &'static str)
        ensures
            r@ == c_type_name(self@),
    {
        proof {
            reveal_with_fuel(type_v, 2);
        }
        match self {
            TypeInfo::Void => "void",
            TypeInfo::Bool => "bool",
            TypeInfo::I8 => "int8_t",
            TypeInfo::U8 => "uint8_t",
            TypeInfo::I16 => "int16_t",
            TypeInfo::U16 => "uint16_t",
            TypeInfo::I32 => "int32_t",
            TypeInfo::U32 => "uint32_t",
            TypeInfo::I64 => "int64_t",
            TypeInfo::U64 => "uint64_t",
            TypeInfo::Pointer(inner) => match &**inner {
                TypeInfo::Void => "void*",
                TypeInfo::I8 => "char*",
                TypeInfo::U8 => "unsigned char*",
                _ => "void*",  // Conservative default
            },
            TypeInfo::Array(inner, _size) => match &**inner {
                TypeInfo::I8 => "char[]",
                TypeInfo::U8 => "unsigned char[]",
                _ => "void[]",
            },
            TypeInfo::FunctionPointer { .. } => "void(*)()",
            TypeInfo::Unknown => "void*",
        }
    }

    /// Check if this is an integer type
    pub fn is_integer(&self) -> (r: bool)
        ensures
            r == is_integer_type(self@),
    {
        match self {
            TypeInfo::I8 | TypeInfo::U8 | TypeInfo::I16 | TypeInfo::U16 | TypeInfo::I32
            | TypeInfo::U32 | TypeInfo::I64 | TypeInfo::U64 => true,
            _ => false,
        }
    }

    /// Check if this is a pointer type
    pub fn is_pointer(&self) -> (r: bool)
        ensures
            r == (self@ is Pointer || self@ is Unknown),
    {
        match self {
            TypeInfo::Pointer(_) | TypeInfo::Unknown => true,
            _ => false,
        }
    }

    /// Get the size in bytes
    pub fn size(&self) -> (r: usize)
        requires
            size_fits(self@),
        ensures
            r == type_size(self@),
        decreases self,
    {
        match self {
            TypeInfo::Void => 0,
            TypeInfo::Bool => 1,
            TypeInfo::I8 | TypeInfo::U8 => 1,
            TypeInfo::I16 | TypeInfo::U16 => 2,
            TypeInfo::I32 | TypeInfo::U32 => 4,
            TypeInfo::I64 | TypeInfo::U64 => 8,
            TypeInfo::Pointer(_) => 8,  // Assume 64-bit
            TypeInfo::Array(inner, size) => inner.size() * *size,
            TypeInfo::FunctionPointer { .. } => 8,
            TypeInfo::Unknown => 8,
        }
    }
}

/// The text of group 1 of the first match of a regular expression, as
/// `regex::Regex::captures` reports it; the outer `None` means the pattern
/// did not compile.
pub uninterp spec fn regex_first_group(pattern: Seq<char>, text: Seq<char>) -> Option<Option<Seq<char>>>;

/// Compiles `pattern` with `regex::Regex::new` and returns group 1 of the
/// first match that `Regex::captures` finds in `text`.
/// The contract only names the result; the regular-expression semantics are
/// the crate's and are not restated.
#[verifier::external_body]
fn regex_capture(pattern: &str, text: &str) -> (r: Option<Option<String>>)
    ensures
        match r {
            Some(g) => regex_first_group(pattern@, text@) == Some(opt_str_v(g)),
            None => regex_first_group(pattern@, text@) is None,
        },
{
    match regex::Regex::new(pattern) {
        Ok(re) => match re.captures(text) {
            Some(caps) => match caps.get(1) {
                Some(m) => Some(Some(m.as_str().to_string())),
                None => Some(None),
            },
            None => Some(None),
        },
        Err(_) => None,
    }
}

/// The hexadecimal-immediate pattern used by the type inference.
pub open spec fn hex_immediate_pattern() -> Seq<char> {
    "0[xX]([0-9A-Fa-f]+)"@
}

/// The immediate an operand string carries: the first `0x…` literal, or else
/// the whole (trimmed) operand text in decimal.
pub open spec fn parse_immediate_spec(operands: Seq<char>) -> Option<u64> {
    immediate_of(operands, regex_first_group(hex_immediate_pattern(), operands))
}

/// The immediate an operand string carries, given what the hex pattern's
/// capture gave on it: nothing when the pattern did not compile, the
/// captured digits in hex, or else the trimmed text in decimal.
pub open spec fn immediate_of(operands: Seq<char>, capture: Option<Option<Seq<char>>>) -> Option<u64> {
    match capture {
        None => None,
        Some(Some(hex)) => parse_u64_spec(hex, 16),
        Some(None) => parse_u64_spec(trim(operands), 10),
    }
}

pub open spec fn capture_view(c: Option<Option<String>>) -> Option<Option<Seq<char>>> {
    match c {
        None => None,
        Some(g) => Some(opt_str_v(g)),
    }
}

/// The immediate of an operand string from the result of the hex capture
/// on it.
pub fn immediate_from_capture(operands: &str, capture: Option<Option<String>>) -> (r: Option<u64>)
    ensures
        r == immediate_of(operands@, capture_view(capture)),
{
    match capture {
        None => None,
        Some(Some(hex)) => parse_u64_radix(&chars_of(hex.as_str()), 16),
        Some(None) => {
            let t = trim_exec(&chars_of(operands));
            parse_u64_radix(&t, 10)
        },
    }
}

/// The narrowest unsigned type that holds an immediate.
pub open spec fn immediate_type(value: u64) -> TypeV {
    if value <= 0xFF {
        TypeV::U8
    } else if value <= 0xFFFF {
        TypeV::U16
    } else if value <= 0xFFFFFFFF {
        TypeV::U32
    } else {
        TypeV::U64
    }
}

/// The type suggested by an x86 instruction.
pub open spec fn infer_x86_spec(mnemonic: Seq<char>, operands: Seq<char>) -> TypeV {
    let m = lower_seq(mnemonic);
    if m == "mov"@ && parse_immediate_spec(operands) is Some {
        immediate_type(parse_immediate_spec(operands).unwrap())
    } else if contains_seq(m, "lea"@) || contains_seq(m, "ptr"@) {
        TypeV::Pointer(Box::new(TypeV::Void))
    } else {
        TypeV::Unknown
    }
}

/// The name-to-type store as a map: later entries override earlier ones.
pub open spec fn known_map(s: Seq<(String, TypeInfo)>) -> Map<Seq<char>, TypeV>
    decreases s.len(),
{
    if s.len() == 0 {
        Map::empty()
    } else {
        known_map(s.drop_last()).insert(s.last().0@, type_v(&s.last().1))
    }
}

/// Type inference engine
pub struct TypeInference {
    /// Known types for registers/variables
    known_types: Vec<(String, TypeInfo)>,
}

impl View for TypeInference {
    type V = Map<Seq<char>, TypeV>;

    closed spec fn view(&self) -> Map<Seq<char>, TypeV> {
        known_map(self.known_types@)
    }
}

proof fn lemma_known_map_absent_suffix(s: Seq<(String, TypeInfo)>, i: int, k: Seq<char>)
    requires
        0 <= i <= s.len(),
        forall|j: int| i <= j < s.len() ==> (#[trigger] s[j]).0@ != k,
    ensures
        known_map(s).contains_key(k) == known_map(s.take(i)).contains_key(k),
        known_map(s).contains_key(k) ==> known_map(s)[k] == known_map(s.take(i))[k],
    decreases s.len() - i,
{
    if i < s.len() {
        assert(s.drop_last().take(i) =~= s.take(i));
        lemma_known_map_absent_suffix(s.drop_last(), i, k);
    } else {
        assert(s.take(i) =~= s);
    }
}

impl TypeInference {
    /// Create a new type inference engine
    pub fn new() -> (r: Self)
        ensures
            r@ == Map::<Seq<char>, TypeV>::empty(),
    {
        TypeInference { known_types: Vec::new() }
    }

    /// Infer type from instruction
    pub fn infer_from_instruction(&mut self, instr: &Instruction) -> (r: TypeInfo)
        ensures
            r@ == infer_x86_spec(instr@.mnemonic, instr@.operands),
            final(self)@ == old(self)@,
    {
        match instr {
            Instruction::X86(x86_instr) => self.infer_from_x86(x86_instr),
        }
    }

    /// Infer type from x86 instruction
    fn infer_from_x86(&mut self, instr: &X86Instruction) -> (r: TypeInfo)
        ensures
            r@ == infer_x86_spec(instr@.mnemonic, instr@.operands),
            final(self)@ == old(self)@,
    {
        let mnemonic = lower_chars(&chars_of(instr.mnemonic.as_str()));

        // MOV instructions with immediate values
        if eq_str(&mnemonic, "mov") {
            if let Some(value) = self.parse_immediate(instr.operands.as_str()) {
                return self.infer_from_immediate(value);
            }
        }
        proof {
            reveal_with_fuel(type_v, 2);
        }
        // Pointer operations
        if contains_exec(&mnemonic, "lea") || contains_exec(&mnemonic, "ptr") {
            return TypeInfo::Pointer(Box::new(TypeInfo::Void));
        }
        TypeInfo::Unknown
    }

    /// Infer type from immediate value
    pub fn infer_from_immediate(&self, value: u64) -> (r: TypeInfo)
        ensures
            r@ == immediate_type(value),
    {
        if value <= 0xFF {
            TypeInfo::U8
        } else if value <= 0xFFFF {
            TypeInfo::U16
        } else if value <= 0xFFFFFFFF {
            TypeInfo::U32
        } else {
            TypeInfo::U64
        }
    }

    /// Parse immediate value from operand string
    fn parse_immediate(&self, operands: &str) -> (r: Option<u64>)
        ensures
            r == parse_immediate_spec(operands@),
    {
        // Look for hex literals like 0x1234, else parse decimal
        let capture = regex_capture("0[xX]([0-9A-Fa-f]+)", operands);
        immediate_from_capture(operands, capture)
    }

    /// Set a known type for a variable
    pub fn set_type(&mut self, name: String, type_info: TypeInfo)
        ensures
            final(self)@ == old(self)@.insert(name@, type_info@),
    {
        self.known_types.push((name, type_info));
        proof {
            assert(self.known_types@.drop_last() =~= old(self).known_types@);
        }
    }

    /// Get the type for a variable
    pub fn get_type(&self, name: &str) -> (r: Option<&TypeInfo>)
        ensures
            match r {
                Some(t) => self@.contains_key(name@) && self@[name@] == t@,
                None => !self@.contains_key(name@),
            },
    {
        let key = chars_of(name);
        let mut i: usize = self.known_types.len();
        while i > 0
            invariant
                i <= self.known_types@.len(),
                key@ == name@,
                forall|j: int| i <= j < self.known_types@.len() ==> (#[trigger] self.known_types@[j]).0@ != name@,
            decreases i,
        {
            let k = chars_of(self.known_types[i - 1].0.as_str());
            if eq_chars(&k, &key) {
                proof {
                    let s = self.known_types@;
                    lemma_known_map_absent_suffix(s, i as int, name@);
                    assert(s.take(i as int).drop_last() =~= s.take(i - 1));
                }
                return Some(&self.known_types[i - 1].1);
            }
            i = i - 1;
        }
        proof {
            lemma_known_map_absent_suffix(self.known_types@, 0, name@);
            assert(self.known_types@.take(0).len() == 0);
        }
        None
    }
}

impl Default for TypeInference {
    fn default() -> (r: Self)
        ensures
            r@ == Map::<Seq<char>, TypeV>::empty(),
    {
        TypeInference::new()
    }
}

} // verus!
