//! Variables of the language: a name, a type tag and the bytes of the value
//! in the language's wire format, with conversion back to typed values and
//! the text that printing a variable shows.
//!
//! Wire format: `Numeric` is one discriminant byte (0 for a value that came
//! from an integer, 1 for one that came from a float) followed by the eight
//! little-endian bytes of an IEEE 754 binary64; `String` is UTF-8; `Vector`
//! is its parts joined by ',' in UTF-8; `Bool` is one byte 0 or 1; `Null` is
//! empty; `Unknown` is any bytes.

use vstd::prelude::*;
use vstd::bytes::{
    spec_u64_from_le_bytes, spec_u64_to_le_bytes, u64_from_le_bytes, u64_to_le_bytes,
    lemma_auto_spec_u64_to_from_le_bytes,
};
use vstd::utf8::encode_utf8;
use vstd::string::StringSliceAdditionalSpecFns;
use crate::text::{
    append_chars, chars_eq, chars_of, contains_char, join_chars, join_with, lower_chars,
    lower_seq, split_char, split_on, string_of, trim, trim_chars, lemma_split_join, lemma_map_push,
};
use crate::numbers::{
    float_literal, i64_text, int_text, is_float_literal, nat_text, parse_i64, parse_i64_spec,
    u64_text,
};
use crate::binary64::{f64_bits_of, f64_bits_to_i64, f64_of_int, f64_to_i64, lemma_small_int_exact};
use crate::utf8_text::{decode_utf8, lemma_decode_encode, utf8_decode};

verus! {

#[derive(Debug, Clone, Copy, PartialEq, Eq, Structural, Hash)]
pub enum Type {
    Numeric,
    String,
    Vector,
    Bool,
    Unknown,
    Null,
}

pub open spec fn type_word(t: Type) -> Seq<char> {
    match t {
        Type::Numeric => "numeric"@,
        Type::String => "string"@,
        Type::Vector => "vector"@,
        Type::Bool => "bool"@,
        Type::Unknown => "unknown"@,
        Type::Null => "null"@,
    }
}

/// The variant name, as `{:?}` prints a `Type`.
pub open spec fn type_debug_name(t: Type) -> Seq<char> {
    match t {
        Type::Numeric => "Numeric"@,
        Type::String => "String"@,
        Type::Vector => "Vector"@,
        Type::Bool => "Bool"@,
        Type::Unknown => "Unknown"@,
        Type::Null => "Null"@,
    }
}

pub open spec fn is_quote(c: char) -> bool {
    c == '"' || c == '\'' || c == '`'
}

/// The type that a literal written in source text has.
pub open spec fn infer_type_spec(s: Seq<char>) -> Type {
    let t = trim(s);
    let l = lower_seq(t);
    if t.len() == 0 || l == seq!['n', 'u', 'l', 'l'] {
        Type::Null
    } else if l == seq!['t', 'r', 'u', 'e'] || l == seq!['f', 'a', 'l', 's', 'e'] {
        Type::Bool
    } else if parse_i64_spec(t) is Some || float_literal(t) {
        Type::Numeric
    } else if t.contains(',') {
        Type::Vector
    } else if t.len() >= 2 && is_quote(t[0]) && t.last() == t[0] {
        Type::String
    } else {
        Type::Unknown
    }
}

impl Type {
    pub fn as_str(&self) -> (r: &'static str)
        ensures
            r@ == type_word(*self),
    {
        match self {
            Type::Numeric => "numeric",
            Type::String => "string",
            Type::Vector => "vector",
            Type::Bool => "bool",
            Type::Unknown => "unknown",
            Type::Null => "null",
        }
    }

    /// The variant name, as `{:?}` prints it.
    pub fn debug_name(&self) -> (r: &'static str)
        ensures
            r@ == type_debug_name(*self),
    {
        match self {
            Type::Numeric => "Numeric",
            Type::String => "String",
            Type::Vector => "Vector",
            Type::Bool => "Bool",
            Type::Unknown => "Unknown",
            Type::Null => "Null",
        }
    }

    /// The type of a literal: `null` (any case) or blank text is `Null`,
    /// `true`/`false` (any case) is `Bool`, what parses as an `i64` or an
    /// `f64` is `Numeric`, text with a comma is a `Vector`, text enclosed in
    /// matching quotes (`"`, `'` or `` ` ``) is a `String`, anything else is
    /// `Unknown`. Surrounding white space is ignored.
    pub fn infer_type(s: &str) -> (r: Type)
        ensures
            r == infer_type_spec(s@),
    {
        let v = chars_of(s);
        infer_type_chars(&v)
    }
}

/// `Type::infer_type` on a character vector.
pub fn infer_type_chars(s: &Vec<char>) -> (r: Type)
    ensures
        r == infer_type_spec(s@),
{
    let t = trim_chars(s);
    let l = lower_chars(&t);
    let null_word = vec!['n', 'u', 'l', 'l'];
    let true_word = vec!['t', 'r', 'u', 'e'];
    let false_word = vec!['f', 'a', 'l', 's', 'e'];
    assert(null_word@ == seq!['n', 'u', 'l', 'l']);
    assert(true_word@ == seq!['t', 'r', 'u', 'e']);
    assert(false_word@ == seq!['f', 'a', 'l', 's', 'e']);
    if t.len() == 0 || chars_eq(&l, &null_word) {
        return Type::Null;
    }
    if chars_eq(&l, &true_word) || chars_eq(&l, &false_word) {
        return Type::Bool;
    }
    if parse_i64(&t).is_some() || is_float_literal(&t) {
        return Type::Numeric;
    }
    if contains_char(&t, ',') {
        return Type::Vector;
    }
    if t.len() >= 2 {
        let first = t[0];
        let last = t[t.len() - 1];
        if (first == '"' || first == '\'' || first == '`') && last == first {
            return Type::String;
        }
    }
    Type::Unknown
}

/// A value read back from a variable's bytes. A number is kept as the bits
/// of its binary64 together with whether it came from an integer.
#[derive(Debug, Clone, PartialEq)]
pub enum Value {
    Numeric { bits: u64, is_integer: bool },
    String(String),
    Vector(Vec<String>),
    Bool(bool),
    Unknown(Vec<u8>),
    Null,
}

/// The mathematical content of a `Value`.
pub enum ValueModel {
    Numeric(u64, bool),
    Text(Seq<char>),
    List(Seq<Seq<char>>),
    Flag(bool),
    Raw(Seq<u8>),
    Nothing,
}

impl View for Value {
    type V = ValueModel;

    open spec fn view(&self) -> ValueModel {
        match self {
            Value::Numeric { bits, is_integer } => ValueModel::Numeric(*bits, *is_integer),
            Value::String(s) => ValueModel::Text(s@),
            Value::Vector(v) => ValueModel::List(v@.map_values(|s: String| s@)),
            Value::Bool(b) => ValueModel::Flag(*b),
            Value::Unknown(d) => ValueModel::Raw(d@),
            Value::Null => ValueModel::Nothing,
        }
    }
}

#[derive(Debug, Clone, Copy, PartialEq, Eq)]
pub enum ConvertError {
    InvalidLength { expected: usize, got: usize },
    /// Bytes that are not UTF-8: where the valid prefix ends, and the length
    /// of the bad sequence (`None` when the input ended inside a sequence).
    InvalidUtf8 { valid_up_to: usize, error_len: Option<u8> },
    InvalidBool(u8),
    InvalidDiscriminant(u8),
}

/// What the bytes of a variable of type `t` read back as.
pub open spec fn value_of(t: Type, data: Seq<u8>) -> Result<ValueModel, ConvertError> {
    match t {
        Type::Numeric => {
            if data.len() != 9 {
                Err(ConvertError::InvalidLength { expected: 9, got: data.len() as usize })
            } else {
                let bits = spec_u64_from_le_bytes(data.subrange(1, 9));
                if data[0] == 0 {
                    Ok(ValueModel::Numeric(bits, true))
                } else if data[0] == 1 {
                    Ok(ValueModel::Numeric(bits, false))
                } else {
                    Err(ConvertError::InvalidDiscriminant(data[0]))
                }
            }
        },
        Type::String => match utf8_decode(data) {
            Ok(cs) => Ok(ValueModel::Text(cs)),
            Err((p, l)) => Err(ConvertError::InvalidUtf8 { valid_up_to: p as usize, error_len: l }),
        },
        Type::Vector => match utf8_decode(data) {
            Ok(cs) => Ok(ValueModel::List(split_char(cs, ','))),
            Err((p, l)) => Err(ConvertError::InvalidUtf8 { valid_up_to: p as usize, error_len: l }),
        },
        Type::Bool => {
            if data.len() != 1 {
                Err(ConvertError::InvalidLength { expected: 1, got: data.len() as usize })
            } else if data[0] == 0 {
                Ok(ValueModel::Flag(false))
            } else if data[0] == 1 {
                Ok(ValueModel::Flag(true))
            } else {
                Err(ConvertError::InvalidBool(data[0]))
            }
        },
        Type::Null => Ok(ValueModel::Nothing),
        Type::Unknown => Ok(ValueModel::Raw(data)),
    }
}

/// The lower-case two-digit hexadecimal text of a byte.
pub open spec fn hex_digit(d: nat) -> char {
    if d < 10 {
        (('0' as u32) + d) as char
    } else {
        (('a' as u32) + d - 10) as char
    }
}

/// The text of a conversion error, as its `Display` writes it.
pub open spec fn error_message(e: ConvertError) -> Seq<char> {
    match e {
        ConvertError::InvalidLength { expected, got } => "expected "@ + nat_text(expected as nat)
            + " bytes, got "@ + nat_text(got as nat),
        ConvertError::InvalidUtf8 { valid_up_to, error_len } => "invalid UTF-8: "@ + match error_len {
            Some(n) => "invalid utf-8 sequence of "@ + nat_text(n as nat) + " bytes from index "@
                + nat_text(valid_up_to as nat),
            None => "incomplete utf-8 byte sequence from index "@ + nat_text(valid_up_to as nat),
        },
        ConvertError::InvalidBool(b) => "invalid bool byte: "@ + nat_text(b as nat),
        ConvertError::InvalidDiscriminant(d) => "invalid numeric discriminant: 0x"@ + seq![
            hex_digit((d / 16) as nat),
            hex_digit((d % 16) as nat),
        ],
    }
}

/// `{:?}` of a byte vector: `[1, 2, 3]`.
pub open spec fn bytes_debug(b: Seq<u8>) -> Seq<char> {
    seq!['['] + join_with(b.map_values(|x: u8| nat_text(x as nat)), seq![',', ' ']) + seq![']']
}

/// What printing a variable shows. A number that came from a float shows
/// `float_text`, the text `Display` gives for that binary64.
pub open spec fn display_text(t: Type, data: Seq<u8>, float_text: Seq<char>) -> Seq<char> {
    match value_of(t, data) {
        Ok(ValueModel::Numeric(bits, true)) => int_text(f64_to_i64(bits)),
        Ok(ValueModel::Numeric(bits, false)) => float_text,
        Ok(ValueModel::Text(s)) => s,
        Ok(ValueModel::Flag(b)) => if b {
            seq!['t', 'r', 'u', 'e']
        } else {
            seq!['f', 'a', 'l', 's', 'e']
        },
        Ok(ValueModel::List(v)) => join_with(v, seq![',', ' ']),
        Ok(ValueModel::Nothing) => seq!['n', 'u', 'l', 'l'],
        Ok(ValueModel::Raw(b)) => bytes_debug(b),
        Err(e) => "<error: "@ + error_message(e) + seq!['>'],
    }
}

/// The binary64 whose text printing needs, when the value is a number that
/// came from a float.
pub open spec fn pending_float(t: Type, data: Seq<u8>) -> Option<u64> {
    match value_of(t, data) {
        Ok(ValueModel::Numeric(bits, false)) => Some(bits),
        _ => None,
    }
}

impl ConvertError {
    pub fn message(&self) -> (r: Vec<char>)
        ensures
            r@ == error_message(*self),
    {
        match self {
            ConvertError::InvalidLength { expected, got } => {
                let mut r = chars_of("expected ");
                append_chars(&mut r, &u64_text(*expected as u64));
                append_chars(&mut r, &chars_of(" bytes, got "));
                append_chars(&mut r, &u64_text(*got as u64));
                r
            },
            ConvertError::InvalidUtf8 { valid_up_to, error_len } => {
                let mut r = chars_of("invalid UTF-8: ");
                match error_len {
                    Some(n) => {
                        append_chars(&mut r, &chars_of("invalid utf-8 sequence of "));
                        append_chars(&mut r, &u64_text(*n as u64));
                        append_chars(&mut r, &chars_of(" bytes from index "));
                        append_chars(&mut r, &u64_text(*valid_up_to as u64));
                    },
                    None => {
                        append_chars(&mut r, &chars_of("incomplete utf-8 byte sequence from index "));
                        append_chars(&mut r, &u64_text(*valid_up_to as u64));
                    },
                }
                r
            },
            ConvertError::InvalidBool(b) => {
                let mut r = chars_of("invalid bool byte: ");
                append_chars(&mut r, &u64_text(*b as u64));
                r
            },
            ConvertError::InvalidDiscriminant(d) => {
                let mut r = chars_of("invalid numeric discriminant: 0x");
                r.push(hex_char(*d / 16));
                r.push(hex_char(*d % 16));
                r
            },
        }
    }

    /// The text that `Display` writes for this error.
    pub fn to_string(&self) -> (r: String)
        ensures
            r@ == error_message(*self),
    {
        string_of(&self.message())
    }
}

fn hex_char(d: u8) -> (c: char)
    requires
        d < 16,
    ensures
        c == hex_digit(d as nat),
{
    if d < 10 {
        (d + 48) as char
    } else {
        (d + 87) as char
    }
}

#[derive(Debug, Clone, PartialEq, Eq, Hash)]
pub struct Variable {
    pub var_type: Type,
    pub data: Vec<u8>,
    pub name: String,
}

/// A copy of a byte slice.
pub fn bytes_vec(b: &[u8]) -> (r: Vec<u8>)
    ensures
        r@ == b@,
{
    let mut r: Vec<u8> = Vec::new();
    let mut i: usize = 0;
    while i < b.len()
        invariant
            i <= b.len(),
            r@ == b@.take(i as int),
        decreases b.len() - i,
    {
        r.push(b[i]);
        i = i + 1;
        assert(r@ =~= b@.take(i as int));
    }
    assert(b@.take(i as int) =~= b@);
    r
}

/// The UTF-8 bytes of a character vector.
pub fn utf8_bytes(v: &Vec<char>) -> (r: Vec<u8>)
    ensures
        r@ == encode_utf8(v@),
{
    let s = string_of(v);
    bytes_vec(s.as_str().as_bytes())
}

/// Bytes of a number: the discriminant then the little-endian bits.
fn numeric_bytes(disc: u8, bits: u64) -> (r: Vec<u8>)
    ensures
        r@ == seq![disc] + spec_u64_to_le_bytes(bits),
{
    let mut r: Vec<u8> = Vec::new();
    r.push(disc);
    let le = u64_to_le_bytes(bits);
    let mut i: usize = 0;
    while i < le.len()
        invariant
            i <= le.len(),
            r@ == seq![disc] + le@.take(i as int),
        decreases le.len() - i,
    {
        r.push(le[i]);
        i = i + 1;
        assert(r@ =~= seq![disc] + le@.take(i as int));
    }
    assert(le@.take(i as int) =~= le@);
    r
}

impl Variable {
    /// A number that came from an integer; stored as `v as f64`.
    pub fn from_int(name: &str, v: i64) -> (r: Variable)
        ensures
            r.var_type == Type::Numeric,
            r.data@ == seq![0u8] + spec_u64_to_le_bytes(f64_of_int(v as int)),
            r.name@ == name@,
    {
        let mag: u64 = if v == i64::MIN {
            0x8000_0000_0000_0000u64
        } else if v < 0 {
            (-v) as u64
        } else {
            v as u64
        };
        let bits = f64_bits_of(v < 0, mag);
        Variable { var_type: Type::Numeric, data: numeric_bytes(0, bits), name: name.to_owned() }
    }

    /// A number that came from a float, given the bits of the binary64.
    pub fn from_float_bits(name: &str, bits: u64) -> (r: Variable)
        ensures
            r.var_type == Type::Numeric,
            r.data@ == seq![1u8] + spec_u64_to_le_bytes(bits),
            r.name@ == name@,
    {
        Variable { var_type: Type::Numeric, data: numeric_bytes(1, bits), name: name.to_owned() }
    }

    pub fn from_string(name: &str, v: &str) -> (r: Variable)
        ensures
            r.var_type == Type::String,
            r.data@ == encode_utf8(v@),
            r.name@ == name@,
    {
        Variable { var_type: Type::String, data: bytes_vec(v.as_bytes()), name: name.to_owned() }
    }

    /// The parts joined by ','.
    pub fn from_vector(name: &str, v: &[&str]) -> (r: Variable)
        ensures
            r.var_type == Type::Vector,
            r.data@ == encode_utf8(join_with(v@.map_values(|s: &str| s@), seq![','])),
            r.name@ == name@,
    {
        let mut parts: Vec<Vec<char>> = Vec::new();
        let mut i: usize = 0;
        while i < v.len()
            invariant
                i <= v.len(),
                parts@.map_values(|p: Vec<char>| p@) == v@.take(i as int).map_values(
                    |s: &str| s@,
                ),
            decreases v.len() - i,
        {
            let ghost before = parts@;
            let p = chars_of(v[i]);
            parts.push(p);
            i = i + 1;
            proof {
                assert(v@.take(i as int) =~= v@.take(i - 1).push(v@[i - 1]));
                lemma_map_push(before, p, |p: Vec<char>| p@);
                lemma_map_push(v@.take(i - 1), v@[i - 1], |s: &str| s@);
            }
            assert(parts@.map_values(|p: Vec<char>| p@) =~= v@.take(i as int).map_values(
                |s: &str| s@,
            ));
        }
        assert(v@.take(i as int) =~= v@);
        let comma = vec![','];
        assert(comma@ == seq![',']);
        let joined = join_chars(&parts, &comma);
        Variable { var_type: Type::Vector, data: utf8_bytes(&joined), name: name.to_owned() }
    }

    pub fn from_bool(name: &str, v: bool) -> (r: Variable)
        ensures
            r.var_type == Type::Bool,
            r.data@ == seq![if v {
                1u8
            } else {
                0u8
            }],
            r.name@ == name@,
    {
        let b: u8 = if v {
            1
        } else {
            0
        };
        Variable { var_type: Type::Bool, data: vec![b], name: name.to_owned() }
    }

    pub fn null(name: &str) -> (r: Variable)
        ensures
            r.var_type == Type::Null,
            r.data@ == Seq::<u8>::empty(),
            r.name@ == name@,
    {
        Variable { var_type: Type::Null, data: Vec::new(), name: name.to_owned() }
    }

    pub fn unknown(name: &str, data: Vec<u8>) -> (r: Variable)
        ensures
            r.var_type == Type::Unknown,
            r.data@ == data@,
            r.name@ == name@,
    {
        Variable { var_type: Type::Unknown, data, name: name.to_owned() }
    }

    /// The bytes, when there are exactly `n` of them.
    pub fn expect_bytes(&self, n: usize) -> (r: Result<&[u8], ConvertError>)
        ensures
            r matches Ok(b) ==> self.data@.len() == n && b@ == self.data@,
            r matches Err(e) ==> self.data@.len() != n && e == (ConvertError::InvalidLength {
                expected: n,
                got: self.data@.len() as usize,
            }),
    {
        if self.data.len() != n {
            return Err(ConvertError::InvalidLength { expected: n, got: self.data.len() });
        }
        Ok(self.data.as_slice())
    }

    /// Reads the bytes back as a value of the variable's type.
    pub fn to_value(&self) -> (r: Result<Value, ConvertError>)
        ensures
            r matches Ok(v) ==> value_of(self.var_type, self.data@) == Ok::<ValueModel, ConvertError>(v@),
            r matches Err(e) ==> value_of(self.var_type, self.data@) == Err::<ValueModel, ConvertError>(e),
    {
        match self.var_type {
            Type::Numeric => {
                let bytes = self.expect_bytes(9)?;
                let disc = bytes[0];
                let mut eight: Vec<u8> = Vec::new();
                let mut i: usize = 1;
                while i < 9
                    invariant
                        1 <= i <= 9,
                        bytes@.len() == 9,
                        eight@ == bytes@.subrange(1, i as int),
                    decreases 9 - i,
                {
                    eight.push(bytes[i]);
                    i = i + 1;
                    assert(eight@ =~= bytes@.subrange(1, i as int));
                }
                let bits = u64_from_le_bytes(eight.as_slice());
                if disc == 0 {
                    Ok(Value::Numeric { bits, is_integer: true })
                } else if disc == 1 {
                    Ok(Value::Numeric { bits, is_integer: false })
                } else {
                    Err(ConvertError::InvalidDiscriminant(disc))
                }
            },
            Type::String => match decode_utf8(&self.data) {
                Ok(cs) => Ok(Value::String(string_of(&cs))),
                Err((p, l)) => Err(ConvertError::InvalidUtf8 { valid_up_to: p, error_len: l }),
            },
            Type::Vector => match decode_utf8(&self.data) {
                Ok(cs) => {
                    let pieces = split_on(&cs, ',');
                    let mut out: Vec<String> = Vec::new();
                    let mut i: usize = 0;
                    while i < pieces.len()
                        invariant
                            i <= pieces.len(),
                            out@.map_values(|s: String| s@) == pieces@.take(i as int).map_values(
                                |p: Vec<char>| p@,
                            ),
                        decreases pieces.len() - i,
                    {
                        let ghost before = out@;
                        let st = string_of(&pieces[i]);
                        out.push(st);
                        i = i + 1;
                        proof {
                            assert(pieces@.take(i as int) =~= pieces@.take(i - 1).push(pieces@[i - 1]));
                            lemma_map_push(before, st, |s: String| s@);
                            lemma_map_push(pieces@.take(i - 1), pieces@[i - 1], |p: Vec<char>| p@);
                        }
                        assert(out@.map_values(|s: String| s@) =~= pieces@.take(
                            i as int,
                        ).map_values(|p: Vec<char>| p@));
                    }
                    assert(pieces@.take(i as int) =~= pieces@);
                    Ok(Value::Vector(out))
                },
                Err((p, l)) => Err(ConvertError::InvalidUtf8 { valid_up_to: p, error_len: l }),
            },
            Type::Bool => {
                let bytes = self.expect_bytes(1)?;
                if bytes[0] == 0 {
                    Ok(Value::Bool(false))
                } else if bytes[0] == 1 {
                    Ok(Value::Bool(true))
                } else {
                    Err(ConvertError::InvalidBool(bytes[0]))
                }
            },
            Type::Null => Ok(Value::Null),
            Type::Unknown => Ok(Value::Unknown(self.data.clone())),
        }
    }

    /// The binary64 whose `Display` text printing this variable needs, when it
    /// holds a number that came from a float.
    pub fn float_bits(&self) -> (r: Option<u64>)
        ensures
            r == pending_float(self.var_type, self.data@),
    {
        match self.to_value() {
            Ok(Value::Numeric { bits, is_integer }) => if is_integer {
                None
            } else {
                Some(bits)
            },
            _ => None,
        }
    }

    /// What printing this variable shows, where `float_text` is the text of
    /// its binary64 when it holds a number that came from a float.
    pub fn render(&self, float_text: &Vec<char>) -> (r: Vec<char>)
        ensures
            r@ == display_text(self.var_type, self.data@, float_text@),
    {
        match self.to_value() {
            Ok(Value::Numeric { bits, is_integer }) => {
                if is_integer {
                    i64_text(f64_bits_to_i64(bits))
                } else {
                    let mut r: Vec<char> = Vec::new();
                    append_chars(&mut r, float_text);
                    r
                }
            },
            Ok(Value::String(s)) => chars_of(s.as_str()),
            Ok(Value::Bool(b)) => if b {
                let r = vec!['t', 'r', 'u', 'e'];
                assert(r@ == seq!['t', 'r', 'u', 'e']);
                r
            } else {
                let r = vec!['f', 'a', 'l', 's', 'e'];
                assert(r@ == seq!['f', 'a', 'l', 's', 'e']);
                r
            },
            Ok(Value::Vector(v)) => {
                let mut parts: Vec<Vec<char>> = Vec::new();
                let mut i: usize = 0;
                while i < v.len()
                    invariant
                        i <= v.len(),
                        parts@.map_values(|p: Vec<char>| p@) == v@.take(i as int).map_values(
                            |s: String| s@,
                        ),
                    decreases v.len() - i,
                {
                    let ghost before = parts@;
                    let p = chars_of(v[i].as_str());
                    parts.push(p);
                    i = i + 1;
                    proof {
                        assert(v@.take(i as int) =~= v@.take(i - 1).push(v@[i - 1]));
                        lemma_map_push(before, p, |p: Vec<char>| p@);
                        lemma_map_push(v@.take(i - 1), v@[i - 1], |s: String| s@);
                    }
                    assert(parts@.map_values(|p: Vec<char>| p@) =~= v@.take(i as int).map_values(
                        |s: String| s@,
                    ));
                }
                assert(v@.take(i as int) =~= v@);
                let sep = vec![',', ' '];
                assert(sep@ == seq![',', ' ']);
                join_chars(&parts, &sep)
            },
            Ok(Value::Null) => {
                let r = vec!['n', 'u', 'l', 'l'];
                assert(r@ == seq!['n', 'u', 'l', 'l']);
                r
            },
            Ok(Value::Unknown(b)) => bytes_debug_text(&b),
            Err(e) => {
                let mut r = chars_of("<error: ");
                append_chars(&mut r, &e.message());
                r.push('>');
                r
            },
        }
    }

    /// What printing this variable shows, unless it holds a number that came
    /// from a float (whose text only float formatting gives): then `None`.
    pub fn to_string(&self) -> (r: Option<String>)
        ensures
            r is None <==> pending_float(self.var_type, self.data@) is Some,
            r matches Some(s) ==> s@ == display_text(self.var_type, self.data@, Seq::empty()),
    {
        if self.float_bits().is_some() {
            None
        } else {
            let empty: Vec<char> = Vec::new();
            Some(string_of(&self.render(&empty)))
        }
    }
}

/// `{:?}` of a byte vector.
fn bytes_debug_text(b: &Vec<u8>) -> (r: Vec<char>)
    ensures
        r@ == bytes_debug(b@),
{
    let mut parts: Vec<Vec<char>> = Vec::new();
    let mut i: usize = 0;
    while i < b.len()
        invariant
            i <= b.len(),
            parts@.map_values(|p: Vec<char>| p@) == b@.take(i as int).map_values(
                |x: u8| nat_text(x as nat),
            ),
        decreases b.len() - i,
    {
        let ghost before = parts@;
        let t = u64_text(b[i] as u64);
        parts.push(t);
        i = i + 1;
        proof {
            assert(b@.take(i as int) =~= b@.take(i - 1).push(b@[i - 1]));
            lemma_map_push(before, t, |p: Vec<char>| p@);
            lemma_map_push(b@.take(i - 1), b@[i - 1], |x: u8| nat_text(x as nat));
        }
        assert(parts@.map_values(|p: Vec<char>| p@) =~= b@.take(i as int).map_values(
            |x: u8| nat_text(x as nat),
        ));
    }
    assert(b@.take(i as int) =~= b@);
    let sep = vec![',', ' '];
    assert(sep@ == seq![',', ' ']);
    let mut r = vec!['['];
    append_chars(&mut r, &join_chars(&parts, &sep));
    r.push(']');
    assert(r@ =~= bytes_debug(b@));
    r
}

/// `true` and `false`, in any case and with white space around them, are
/// exactly the texts whose type is `Bool`; blank text and `null` in any case
/// are `Null`.
pub proof fn law_bool_literals(s: Seq<char>)
    ensures
        (trim(s).len() == 0 || lower_seq(trim(s)) == seq!['n', 'u', 'l', 'l']) ==> infer_type_spec(s) == Type::Null,
        infer_type_spec(s) == Type::Bool <==> (lower_seq(trim(s)) == seq!['t', 'r', 'u', 'e']
            || lower_seq(trim(s)) == seq!['f', 'a', 'l', 's', 'e']),
{
    let l = lower_seq(trim(s));
    if l == seq!['t', 'r', 'u', 'e'] || l == seq!['f', 'a', 'l', 's', 'e'] {
        assert(l != seq!['n', 'u', 'l', 'l']) by {
            if l.len() == 4 {
                assert(l[0] != seq!['n', 'u', 'l', 'l'][0]);
            }
        }
        assert(l.len() == trim(s).len());
    }
}

/// A boolean variable reads back as the same boolean.
pub proof fn law_bool_roundtrip(b: bool)
    ensures
        value_of(Type::Bool, seq![if b {
            1u8
        } else {
            0u8
        }]) == Ok::<ValueModel, ConvertError>(ValueModel::Flag(b)),
{
}

/// A string variable reads back as the same text.
pub proof fn law_string_roundtrip(s: Seq<char>)
    ensures
        value_of(Type::String, encode_utf8(s)) == Ok::<ValueModel, ConvertError>(ValueModel::Text(s)),
{
    lemma_decode_encode(s);
}

/// A vector variable reads back as the same parts, when no part contains the
/// separator ','.
pub proof fn law_vector_roundtrip(parts: Seq<Seq<char>>)
    requires
        parts.len() >= 1,
        forall|i: int| 0 <= i < parts.len() ==> !(#[trigger] parts[i]).contains(','),
    ensures
        value_of(Type::Vector, encode_utf8(join_with(parts, seq![','])))
            == Ok::<ValueModel, ConvertError>(ValueModel::List(parts)),
{
    lemma_decode_encode(join_with(parts, seq![',']));
    lemma_split_join(parts, ',');
}

/// A null variable reads back as null.
pub proof fn law_null_roundtrip()
    ensures
        value_of(Type::Null, Seq::<u8>::empty()) == Ok::<ValueModel, ConvertError>(ValueModel::Nothing),
{
}

/// A number reads back as the bits it was stored with, and whether it came
/// from an integer.
pub proof fn law_numeric_roundtrip(bits: u64, is_integer: bool)
    ensures
        value_of(
            Type::Numeric,
            seq![if is_integer {
                0u8
            } else {
                1u8
            }] + spec_u64_to_le_bytes(bits),
        ) == Ok::<ValueModel, ConvertError>(ValueModel::Numeric(bits, is_integer)),
{
    lemma_auto_spec_u64_to_from_le_bytes();
    let d = seq![if is_integer {
        0u8
    } else {
        1u8
    }] + spec_u64_to_le_bytes(bits);
    assert(d.subrange(1, 9) =~= spec_u64_to_le_bytes(bits));
}

/// A variable made from an integer of magnitude below `2^53` prints as that
/// integer.
pub proof fn law_int_display(v: i64, float_text: Seq<char>)
    requires
        -0x20_0000_0000_0000 < v < 0x20_0000_0000_0000,
    ensures
        display_text(Type::Numeric, seq![0u8] + spec_u64_to_le_bytes(f64_of_int(v as int)), float_text)
            == int_text(v as int),
{
    law_numeric_roundtrip(f64_of_int(v as int), true);
    lemma_small_int_exact(v as int);
}

} // verus!
