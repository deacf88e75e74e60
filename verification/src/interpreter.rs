//! The interpreter. Its decisions are made here, one statement per call of
//! `Interpreter::step`; what the language needs of floating point (parsing a
//! number, arithmetic, printing a float) is asked of the caller, which
//! answers and calls again, as are reading files and printing.

use vstd::prelude::*;
use vstd::bytes::spec_u64_to_le_bytes;
use vstd::utf8::encode_utf8;
use crate::csv::CSV;
use crate::parser::{statements_of, Parser, StatementsError};
use crate::compiler::{strings_of, unbalanced, unbalanced_statements};
use crate::environment::{
    display_text, infer_type_chars, infer_type_spec, pending_float, type_debug_name, type_word,
    Type, Variable,
};
use crate::pattern::{captures, captures_view, get_group, group, is_match, regex_captures, regex_is_match};
use crate::syntax::{
    balanced, check_structure, clean_arg, clean_arg_spec, extract_args, extract_args_spec, first_index,
    parse_args, parse_args_spec, unquote, ArgsError,
};
use crate::text::{
    append_chars, chars_eq, chars_of, contains_char, join_with, lemma_map_push, lower_seq, slice_chars,
    split_char, split_on, string_of, trim, trim_chars,
};
use crate::numbers::{float_literal, int_text, is_float_literal, parse_i64, parse_i64_spec, i64_text};
use crate::binary64::{
    compare_bits, f64_compare, f64_is_zero, f64_of_int, f64_small_integral, f64_to_i64,
    f64_bits_to_i64, is_zero_bits, small_integral_bits,
};

verus! {

/// Work on floating point that the caller does.
pub enum FloatRequest {
    /// The bits of `text.parse::<f64>()` (the text is known to parse).
    Parse(String),
    /// `format!("{}", f64::from_bits(bits))`.
    Format(u64),
    /// The bits of `l op r` for `op` one of `+ - * / %`.
    Arith(u64, char, u64),
}

/// The caller's answer to a `FloatRequest`: bits for `Parse` and `Arith`,
/// text for `Format`.
pub enum FloatAnswer {
    Bits(u64),
    Text(String),
}

pub enum Req {
    Parse(Seq<char>),
    Format(u64),
    Arith(u64, char, u64),
}

pub enum Ans {
    Bits(u64),
    Text(Seq<char>),
}

pub open spec fn req_view(r: FloatRequest) -> Req {
    match r {
        FloatRequest::Parse(s) => Req::Parse(s@),
        FloatRequest::Format(b) => Req::Format(b),
        FloatRequest::Arith(l, op, r) => Req::Arith(l, op, r),
    }
}

pub open spec fn ans_view(a: FloatAnswer) -> Ans {
    match a {
        FloatAnswer::Bits(b) => Ans::Bits(b),
        FloatAnswer::Text(t) => Ans::Text(t@),
    }
}

pub open spec fn answers_view(a: Seq<FloatAnswer>) -> Seq<Ans> {
    a.map_values(|x: FloatAnswer| ans_view(x))
}

/// Why a statement is not finished: it needs an answer to a request, or an
/// answer given was of the wrong kind.
pub enum Stop {
    Ask(FloatRequest),
    Mismatch,
}

pub enum StopModel {
    Ask(Req),
    Mismatch,
}

pub open spec fn stop_view(s: Stop) -> StopModel {
    match s {
        Stop::Ask(r) => StopModel::Ask(req_view(r)),
        Stop::Mismatch => StopModel::Mismatch,
    }
}

/// The text answering request number `k`.
pub open spec fn answer_text(answers: Seq<Ans>, k: nat, req: Req) -> Result<(Seq<char>, nat), StopModel> {
    if k < answers.len() {
        match answers[k as int] {
            Ans::Text(t) => Ok((t, k + 1)),
            Ans::Bits(_) => Err(StopModel::Mismatch),
        }
    } else {
        Err(StopModel::Ask(req))
    }
}

/// The bits answering request number `k`.
pub open spec fn answer_bits(answers: Seq<Ans>, k: nat, req: Req) -> Result<(u64, nat), StopModel> {
    if k < answers.len() {
        match answers[k as int] {
            Ans::Bits(b) => Ok((b, k + 1)),
            Ans::Text(_) => Err(StopModel::Mismatch),
        }
    } else {
        Err(StopModel::Ask(req))
    }
}

fn get_text(answers: &Vec<FloatAnswer>, k: usize, req: FloatRequest) -> (r: Result<(Vec<char>, usize), Stop>)
    ensures
        match r {
            Ok((t, k2)) => answer_text(answers_view(answers@), k as nat, req_view(req)) == Ok::<(Seq<char>, nat), StopModel>((t@, k2 as nat)),
            Err(s) => answer_text(answers_view(answers@), k as nat, req_view(req)) == Err::<(Seq<char>, nat), StopModel>(stop_view(s)),
        },
{
    if k < answers.len() {
        match &answers[k] {
            FloatAnswer::Text(t) => Ok((chars_of(t.as_str()), k + 1)),
            FloatAnswer::Bits(_) => Err(Stop::Mismatch),
        }
    } else {
        Err(Stop::Ask(req))
    }
}

fn get_bits(answers: &Vec<FloatAnswer>, k: usize, req: FloatRequest) -> (r: Result<(u64, usize), Stop>)
    ensures
        match r {
            Ok((b, k2)) => answer_bits(answers_view(answers@), k as nat, req_view(req)) == Ok::<(u64, nat), StopModel>((b, k2 as nat)),
            Err(s) => answer_bits(answers_view(answers@), k as nat, req_view(req)) == Err::<(u64, nat), StopModel>(stop_view(s)),
        },
{
    if k < answers.len() {
        match &answers[k] {
            FloatAnswer::Bits(b) => Ok((*b, k + 1)),
            FloatAnswer::Text(_) => Err(Stop::Mismatch),
        }
    } else {
        Err(Stop::Ask(req))
    }
}

/* Variables. */

pub struct VarModel {
    pub t: Type,
    pub data: Seq<u8>,
    pub name: Seq<char>,
}

pub open spec fn var_view(v: Variable) -> VarModel {
    VarModel { t: v.var_type, data: v.data@, name: v.name@ }
}

pub open spec fn vars_view(v: Seq<Variable>) -> Seq<VarModel> {
    v.map_values(|x: Variable| var_view(x))
}

/// The first variable at or after `i` called `name`.
pub open spec fn find_var_from(vars: Seq<VarModel>, name: Seq<char>, i: nat) -> Option<nat>
    decreases vars.len() - i,
{
    if i >= vars.len() {
        None
    } else if vars[i as int].name == name {
        Some(i)
    } else {
        find_var_from(vars, name, i + 1)
    }
}

pub open spec fn find_var_spec(vars: Seq<VarModel>, name: Seq<char>) -> Option<nat> {
    find_var_from(vars, name, 0)
}

/// The index of the first variable called `name`.
pub fn find_var(vars: &Vec<Variable>, name: &Vec<char>) -> (r: Option<usize>)
    ensures
        match r {
            Some(i) => find_var_spec(vars_view(vars@), name@) == Some(i as nat) && i < vars@.len()
                && vars@[i as int].name@ == name@,
            None => find_var_spec(vars_view(vars@), name@) is None,
        },
{
    let ghost vs = vars_view(vars@);
    let mut i: usize = 0;
    while i < vars.len()
        invariant
            i <= vars.len(),
            vs == vars_view(vars@),
            find_var_spec(vs, name@) == find_var_from(vs, name@, i as nat),
        decreases vars.len() - i,
    {
        let n = chars_of(vars[i].name.as_str());
        assert(vs[i as int].name == vars@[i as int].name@);
        if chars_eq(&n, name) {
            return Some(i);
        }
        i = i + 1;
    }
    None
}

/// The text of a variable when printed; a float value's text is asked for.
pub open spec fn show_var(v: VarModel, answers: Seq<Ans>, k: nat) -> Result<(Seq<char>, nat), StopModel> {
    match pending_float(v.t, v.data) {
        Some(b) => match answer_text(answers, k, Req::Format(b)) {
            Ok((t, k2)) => Ok((display_text(v.t, v.data, t), k2)),
            Err(e) => Err(e),
        },
        None => Ok((display_text(v.t, v.data, Seq::empty()), k)),
    }
}

fn display_var(v: &Variable, answers: &Vec<FloatAnswer>, k: usize) -> (r: Result<(Vec<char>, usize), Stop>)
    ensures
        match r {
            Ok((t, k2)) => show_var(var_view(*v), answers_view(answers@), k as nat) == Ok::<(Seq<char>, nat), StopModel>((t@, k2 as nat)),
            Err(s) => show_var(var_view(*v), answers_view(answers@), k as nat) == Err::<(Seq<char>, nat), StopModel>(stop_view(s)),
        },
{
    match v.float_bits() {
        Some(b) => {
            let (t, k2) = get_text(answers, k, FloatRequest::Format(b))?;
            Ok((v.render(&t), k2))
        },
        None => {
            let empty: Vec<char> = Vec::new();
            Ok((v.render(&empty), k))
        },
    }
}

/// What an operand stands for: a variable's text, or the token without
/// enclosing double quotes.
pub open spec fn resolve_operand_spec(vars: Seq<VarModel>, token: Seq<char>, answers: Seq<Ans>, k: nat) -> Result<(Seq<char>, nat), StopModel> {
    match find_var_spec(vars, token) {
        Some(i) => show_var(vars[i as int], answers, k),
        None => Ok((unquote(token), k)),
    }
}

fn unquote_chars(t: &Vec<char>) -> (r: Vec<char>)
    ensures
        r@ == unquote(t@),
{
    let n = t.len();
    if n >= 2 && t[0] == '"' && t[n - 1] == '"' {
        slice_chars(t, 1, n - 1)
    } else {
        slice_chars(t, 0, n)
    }
}

pub fn resolve_operand(vars: &Vec<Variable>, token: &Vec<char>, answers: &Vec<FloatAnswer>, k: usize) -> (r: Result<(Vec<char>, usize), Stop>)
    ensures
        match r {
            Ok((t, k2)) => resolve_operand_spec(vars_view(vars@), token@, answers_view(answers@), k as nat) == Ok::<(Seq<char>, nat), StopModel>((t@, k2 as nat)),
            Err(s) => resolve_operand_spec(vars_view(vars@), token@, answers_view(answers@), k as nat) == Err::<(Seq<char>, nat), StopModel>(stop_view(s)),
        },
{
    match find_var(vars, token) {
        Some(i) => display_var(&vars[i], answers, k),
        None => {
            let t = unquote_chars(token);
            assert(t@ == unquote(token@));
            Ok((t, k))
        },
    }
}

/// `text.parse::<f64>()`: `None` when it does not parse, else the bits the
/// caller gives.
pub open spec fn parse_float_spec(text: Seq<char>, answers: Seq<Ans>, k: nat) -> Result<(Option<u64>, nat), StopModel> {
    if !float_literal(text) {
        Ok((None, k))
    } else {
        match answer_bits(answers, k, Req::Parse(text)) {
            Ok((b, k2)) => Ok((Some(b), k2)),
            Err(e) => Err(e),
        }
    }
}

fn parse_float(text: &Vec<char>, answers: &Vec<FloatAnswer>, k: usize) -> (r: Result<(Option<u64>, usize), Stop>)
    ensures
        match r {
            Ok((b, k2)) => parse_float_spec(text@, answers_view(answers@), k as nat) == Ok::<(Option<u64>, nat), StopModel>((b, k2 as nat)),
            Err(s) => parse_float_spec(text@, answers_view(answers@), k as nat) == Err::<(Option<u64>, nat), StopModel>(stop_view(s)),
        },
{
    if !is_float_literal(text) {
        return Ok((None, k));
    }
    let (b, k2) = get_bits(answers, k, FloatRequest::Parse(string_of(text)))?;
    Ok((Some(b), k2))
}

/* Numbers in variables. */

/// `Display` of the error that `str::parse::<f64>` gives.
pub open spec fn float_error_text(raw: Seq<char>) -> Seq<char> {
    if raw.len() == 0 {
        "cannot parse float from empty string"@
    } else {
        "invalid float literal"@
    }
}

pub open spec fn bad_numeric(raw: Seq<char>) -> Seq<char> {
    "Bad numeric '"@ + raw + "': "@ + float_error_text(raw)
}

pub open spec fn int_var(name: Seq<char>, i: int) -> VarModel {
    VarModel { t: Type::Numeric, data: seq![0u8] + spec_u64_to_le_bytes(f64_of_int(i)), name }
}

pub open spec fn float_var(name: Seq<char>, b: u64) -> VarModel {
    VarModel { t: Type::Numeric, data: seq![1u8] + spec_u64_to_le_bytes(b), name }
}

/// A number variable made from text: from an integer when the text parses
/// as `i64`, else from the float it parses as.
pub open spec fn make_numeric_spec(name: Seq<char>, raw: Seq<char>, answers: Seq<Ans>, k: nat) -> Result<(Result<VarModel, Seq<char>>, nat), StopModel> {
    match parse_i64_spec(raw) {
        Some(i) => Ok((Ok(int_var(name, i)), k)),
        None => match parse_float_spec(raw, answers, k) {
            Ok((Some(b), k2)) => Ok((Ok(float_var(name, b)), k2)),
            Ok((None, k2)) => Ok((Err(bad_numeric(raw)), k2)),
            Err(e) => Err(e),
        },
    }
}

pub open spec fn var_result_view(r: Result<Variable, Vec<char>>) -> Result<VarModel, Seq<char>> {
    match r {
        Ok(v) => Ok(var_view(v)),
        Err(e) => Err(e@),
    }
}

pub fn make_numeric_var(name: &Vec<char>, raw: &Vec<char>, answers: &Vec<FloatAnswer>, k: usize) -> (r: Result<(Result<Variable, Vec<char>>, usize), Stop>)
    ensures
        match r {
            Ok((v, k2)) => make_numeric_spec(name@, raw@, answers_view(answers@), k as nat) == Ok::<(Result<VarModel, Seq<char>>, nat), StopModel>((var_result_view(v), k2 as nat)),
            Err(s) => make_numeric_spec(name@, raw@, answers_view(answers@), k as nat) == Err::<(Result<VarModel, Seq<char>>, nat), StopModel>(stop_view(s)),
        },
{
    let n = string_of(name);
    match parse_i64(raw) {
        Some(i) => {
            let v = Variable::from_int(n.as_str(), i);
            Ok((Ok(v), k))
        },
        None => {
            let (b, k2) = parse_float(raw, answers, k)?;
            match b {
                Some(bits) => Ok((Ok(Variable::from_float_bits(n.as_str(), bits)), k2)),
                None => {
                    let mut e = chars_of("Bad numeric '");
                    append_chars(&mut e, raw);
                    append_chars(&mut e, &chars_of("': "));
                    if raw.len() == 0 {
                        append_chars(&mut e, &chars_of("cannot parse float from empty string"));
                    } else {
                        append_chars(&mut e, &chars_of("invalid float literal"));
                    }
                    Ok((Err(e), k2))
                },
            }
        },
    }
}

/* Arithmetic. */

/// The text of an arithmetic result: an integer below `10^15` in magnitude
/// is written as an integer, anything else as `Display` writes the float.
pub open spec fn result_text(res: u64, answers: Seq<Ans>, k: nat) -> Result<(Seq<char>, nat), StopModel> {
    if f64_small_integral(res) {
        Ok((int_text(f64_to_i64(res)), k))
    } else {
        answer_text(answers, k, Req::Format(res))
    }
}

pub open spec fn is_arith_op(op: Seq<char>) -> bool {
    op == seq!['+'] || op == seq!['-'] || op == seq!['*'] || op == seq!['/'] || op == seq!['%']
}

/// `lhs op rhs`: numbers when both parse as `f64` (division and remainder by
/// zero fail), else `+` joins the texts and other operators fail.
pub open spec fn arith_spec(lhs: Seq<char>, op: Seq<char>, rhs: Seq<char>, answers: Seq<Ans>, k: nat) -> Result<(Result<Seq<char>, Seq<char>>, nat), StopModel> {
    match parse_float_spec(lhs, answers, k) {
        Err(e) => Err(e),
        Ok((l, k1)) => match parse_float_spec(rhs, answers, k1) {
            Err(e) => Err(e),
            Ok((r, k2)) => {
                if l is Some && r is Some {
                    let lb = l->0;
                    let rb = r->0;
                    if !is_arith_op(op) {
                        Ok((Err("Unknown arithmetic operator: "@ + op), k2))
                    } else if op == seq!['/'] && f64_is_zero(rb) {
                        Ok((Err("Division by zero."@), k2))
                    } else if op == seq!['%'] && f64_is_zero(rb) {
                        Ok((Err("Modulo by zero."@), k2))
                    } else {
                        match answer_bits(answers, k2, Req::Arith(lb, op[0], rb)) {
                            Err(e) => Err(e),
                            Ok((res, k3)) => match result_text(res, answers, k3) {
                                Ok((t, k4)) => Ok((Ok(t), k4)),
                                Err(e) => Err(e),
                            },
                        }
                    }
                } else if op == seq!['+'] {
                    Ok((Ok(lhs + rhs), k2))
                } else {
                    Ok((Err("Operator '"@ + op + "' cannot be applied to non-numeric operands '"@ + lhs + "' and '"@ + rhs + "'."@), k2))
                }
            },
        },
    }
}

pub open spec fn text_result_view(r: Result<Vec<char>, Vec<char>>) -> Result<Seq<char>, Seq<char>> {
    match r {
        Ok(t) => Ok(t@),
        Err(e) => Err(e@),
    }
}

fn is_single(op: &Vec<char>, c: char) -> (r: bool)
    ensures
        r == (op@ == seq![c]),
{
    if op.len() == 1 && op[0] == c {
        assert(op@ =~= seq![c]);
        true
    } else {
        proof {
            if op@ == seq![c] {
                assert(op@[0] == c);
            }
        }
        false
    }
}

pub fn apply_arithmetic(lhs: &Vec<char>, op: &Vec<char>, rhs: &Vec<char>, answers: &Vec<FloatAnswer>, k: usize) -> (r: Result<(Result<Vec<char>, Vec<char>>, usize), Stop>)
    ensures
        match r {
            Ok((v, k2)) => arith_spec(lhs@, op@, rhs@, answers_view(answers@), k as nat) == Ok::<(Result<Seq<char>, Seq<char>>, nat), StopModel>((text_result_view(v), k2 as nat)),
            Err(s) => arith_spec(lhs@, op@, rhs@, answers_view(answers@), k as nat) == Err::<(Result<Seq<char>, Seq<char>>, nat), StopModel>(stop_view(s)),
        },
{
    let (l, k1) = parse_float(lhs, answers, k)?;
    let (r, k2) = parse_float(rhs, answers, k1)?;
    let plus = is_single(op, '+');
    match (l, r) {
        (Some(lb), Some(rb)) => {
            let minus = is_single(op, '-');
            let times = is_single(op, '*');
            let div = is_single(op, '/');
            let rem = is_single(op, '%');
            if !(plus || minus || times || div || rem) {
                let mut e = chars_of("Unknown arithmetic operator: ");
                append_chars(&mut e, op);
                return Ok((Err(e), k2));
            }
            if div && is_zero_bits(rb) {
                return Ok((Err(chars_of("Division by zero.")), k2));
            }
            if rem && is_zero_bits(rb) {
                return Ok((Err(chars_of("Modulo by zero.")), k2));
            }
            let (res, k3) = get_bits(answers, k2, FloatRequest::Arith(lb, op[0], rb))?;
            if small_integral_bits(res) {
                Ok((Ok(i64_text(f64_bits_to_i64(res))), k3))
            } else {
                let (t, k4) = get_text(answers, k3, FloatRequest::Format(res))?;
                Ok((Ok(t), k4))
            }
        },
        _ => {
            if plus {
                let mut t = slice_chars(lhs, 0, lhs.len());
                append_chars(&mut t, rhs);
                assert(lhs@.subrange(0, lhs@.len() as int) =~= lhs@);
                Ok((Ok(t), k2))
            } else {
                let mut e = chars_of("Operator '");
                append_chars(&mut e, op);
                append_chars(&mut e, &chars_of("' cannot be applied to non-numeric operands '"));
                append_chars(&mut e, lhs);
                append_chars(&mut e, &chars_of("' and '"));
                append_chars(&mut e, rhs);
                append_chars(&mut e, &chars_of("'."));
                Ok((Err(e), k2))
            }
        },
    }
}

/* Conditions. */

/// `a < b` for strings: lexicographic by characters.
pub open spec fn text_less(a: Seq<char>, b: Seq<char>) -> bool
    decreases a.len(),
{
    if a.len() == 0 {
        b.len() > 0
    } else if b.len() == 0 {
        false
    } else if a[0] != b[0] {
        (a[0] as u32) < (b[0] as u32)
    } else {
        text_less(a.drop_first(), b.drop_first())
    }
}

/// String comparison with one of `==`, `!=`, `>`, `>=`, `<`, `<=`.
pub open spec fn text_compare(a: Seq<char>, b: Seq<char>, op: Seq<char>) -> bool {
    if op == seq!['=', '='] {
        a == b
    } else if op == seq!['!', '='] {
        a != b
    } else if op == seq!['>'] {
        text_less(b, a)
    } else if op == seq!['>', '='] {
        !text_less(a, b)
    } else if op == seq!['<'] {
        text_less(a, b)
    } else {
        !text_less(b, a)
    }
}

pub open spec fn is_compare_op(op: Seq<char>) -> bool {
    ||| op == seq!['=', '=']
    ||| op == seq!['!', '=']
    ||| op == seq!['>']
    ||| op == seq!['>', '=']
    ||| op == seq!['<']
    ||| op == seq!['<', '=']
}

fn less_chars(a: &Vec<char>, b: &Vec<char>) -> (r: bool)
    ensures
        r == text_less(a@, b@),
{
    let mut i: usize = 0;
    assert(a@.skip(0) =~= a@);
    assert(b@.skip(0) =~= b@);
    while i < a.len() && i < b.len() && a[i] == b[i]
        invariant
            i <= a.len(),
            i <= b.len(),
            text_less(a@, b@) == text_less(a@.skip(i as int), b@.skip(i as int)),
        decreases a.len() - i,
    {
        proof {
            assert(a@.skip(i as int).drop_first() =~= a@.skip(i + 1));
            assert(b@.skip(i as int).drop_first() =~= b@.skip(i + 1));
        }
        i = i + 1;
    }
    if i == a.len() {
        i < b.len()
    } else if i == b.len() {
        false
    } else {
        assert(a@.skip(i as int)[0] == a@[i as int]);
        assert(b@.skip(i as int)[0] == b@[i as int]);
        (a[i] as u32) < (b[i] as u32)
    }
}

fn compare_texts(a: &Vec<char>, b: &Vec<char>, op: &Vec<char>) -> (r: bool)
    ensures
        r == text_compare(a@, b@, op@),
{
    let n = op.len();
    if n == 2 && op[0] == '=' && op[1] == '=' {
        assert(op@ == seq!['=', '=']);
        chars_eq(a, b)
    } else if n == 2 && op[0] == '!' && op[1] == '=' {
        assert(op@ != seq!['=', '=']) by {
            if op@ == seq!['=', '='] {
                assert(op@[0] == '=');
            }
        }
        assert(op@ == seq!['!', '=']);
        !chars_eq(a, b)
    } else if n == 1 && op[0] == '>' {
        assert(op@ == seq!['>']);
        less_chars(b, a)
    } else if n == 2 && op[0] == '>' && op[1] == '=' {
        assert(op@ == seq!['>', '=']);
        !less_chars(a, b)
    } else if n == 1 && op[0] == '<' {
        assert(op@ == seq!['<']);
        !(!less_chars(a, b))
    } else {
        assert(op@ != seq!['=', '=']) by {
            if op@ == seq!['=', '='] {
                assert(op@[0] == '=' && op@[1] == '=');
            }
        }
        assert(op@ != seq!['!', '=']) by {
            if op@ == seq!['!', '='] {
                assert(op@[0] == '!' && op@[1] == '=');
            }
        }
        assert(op@ != seq!['>']) by {
            if op@ == seq!['>'] {
                assert(op@[0] == '>');
            }
        }
        assert(op@ != seq!['>', '=']) by {
            if op@ == seq!['>', '='] {
                assert(op@[0] == '>' && op@[1] == '=');
            }
        }
        assert(op@ != seq!['<']) by {
            if op@ == seq!['<'] {
                assert(op@[0] == '<');
            }
        }
        !less_chars(b, a)
    }
}

fn is_compare_op_chars(op: &Vec<char>) -> (r: bool)
    ensures
        r == is_compare_op(op@),
{
    let n = op.len();
    let r = (n == 2 && op[0] == '=' && op[1] == '=') || (n == 2 && op[0] == '!' && op[1] == '=')
        || (n == 1 && op[0] == '>') || (n == 2 && op[0] == '>' && op[1] == '=') || (n == 1 && op[0]
        == '<') || (n == 2 && op[0] == '<' && op[1] == '=');
    proof {
        if r {
            if n == 1 {
                assert(op@ =~= seq![op@[0]]);
            } else {
                assert(op@ =~= seq![op@[0], op@[1]]);
            }
        } else {
            if op@ == seq!['=', '='] || op@ == seq!['!', '='] || op@ == seq!['>', '='] || op@ == seq!['<', '='] {
                assert(op@.len() == 2 && op@[1] == '=');
            }
            if op@ == seq!['>'] || op@ == seq!['<'] {
                assert(op@.len() == 1);
            }
        }
    }
    r
}

pub open spec fn cond_pattern() -> Seq<char> {
    r#"(?i)^\s*(\w+)\s*(==|!=|>=|<=|>|<)\s*(\w+|"[^"]*"|\d+\.?\d*)\s*$"#@
}

pub open spec fn unsupported_condition(condition: Seq<char>) -> Seq<char> {
    "Unsupported condition: '"@ + condition + "'"@
}

/// A condition `name op operand`, given the capture groups of
/// `cond_pattern`: both sides compare as numbers when both texts parse as
/// `f64`, else as strings; the left side must be a variable.
pub open spec fn condition_of_captures(vars: Seq<VarModel>, condition: Seq<char>, caps: Option<Seq<Option<Seq<char>>>>, answers: Seq<Ans>, k: nat) -> Result<(Result<bool, Seq<char>>, nat), StopModel> {
    match caps {
        None => Ok((Err(unsupported_condition(condition)), k)),
        Some(c) => {
            if group(c, 1) is Some && group(c, 2) is Some && group(c, 3) is Some {
                let lhs_name = trim(group(c, 1)->0);
                let op = trim(group(c, 2)->0);
                let rhs_raw = trim(group(c, 3)->0);
                match find_var_spec(vars, lhs_name) {
                    None => Ok((Err("Unknown variable '"@ + lhs_name + "' in condition."@), k)),
                    Some(li) => {
                        let rhs_step = match find_var_spec(vars, rhs_raw) {
                            Some(ri) => show_var(vars[ri as int], answers, k),
                            None => Ok((unquote(rhs_raw), k)),
                        };
                        match rhs_step {
                            Err(e) => Err(e),
                            Ok((rhs_str, k1)) => match show_var(vars[li as int], answers, k1) {
                                Err(e) => Err(e),
                                Ok((lhs_str, k2)) => match parse_float_spec(lhs_str, answers, k2) {
                                    Err(e) => Err(e),
                                    Ok((l, k3)) => match parse_float_spec(rhs_str, answers, k3) {
                                        Err(e) => Err(e),
                                        Ok((r, k4)) => {
                                            if !is_compare_op(op) {
                                                Ok((Err("Unknown operator: "@ + op), k4))
                                            } else if l is Some && r is Some {
                                                Ok((Ok(f64_compare(l->0, r->0, op)), k4))
                                            } else {
                                                Ok((Ok(text_compare(lhs_str, rhs_str, op)), k4))
                                            }
                                        },
                                    },
                                },
                            },
                        }
                    },
                }
            } else {
                Ok((Err(unsupported_condition(condition)), k))
            }
        },
    }
}

pub open spec fn condition_spec(vars: Seq<VarModel>, condition: Seq<char>, answers: Seq<Ans>, k: nat) -> Result<(Result<bool, Seq<char>>, nat), StopModel> {
    condition_of_captures(vars, condition, regex_captures(cond_pattern(), condition), answers, k)
}

pub open spec fn bool_result_view(r: Result<bool, Vec<char>>) -> Result<bool, Seq<char>> {
    match r {
        Ok(b) => Ok(b),
        Err(e) => Err(e@),
    }
}

fn unsupported_condition_text(condition: &Vec<char>) -> (r: Vec<char>)
    ensures
        r@ == unsupported_condition(condition@),
{
    let mut e = chars_of("Unsupported condition: '");
    append_chars(&mut e, condition);
    append_chars(&mut e, &chars_of("'"));
    e
}

pub fn condition_from_captures(vars: &Vec<Variable>, condition: &Vec<char>, caps: Option<Vec<Option<String>>>, answers: &Vec<FloatAnswer>, k: usize) -> (r: Result<(Result<bool, Vec<char>>, usize), Stop>)
    ensures
        match r {
            Ok((v, k2)) => condition_of_captures(vars_view(vars@), condition@, captures_view(caps), answers_view(answers@), k as nat) == Ok::<(Result<bool, Seq<char>>, nat), StopModel>((bool_result_view(v), k2 as nat)),
            Err(s) => condition_of_captures(vars_view(vars@), condition@, captures_view(caps), answers_view(answers@), k as nat) == Err::<(Result<bool, Seq<char>>, nat), StopModel>(stop_view(s)),
        },
{
    let c = match caps {
        None => {
            return Ok((Err(unsupported_condition_text(condition)), k));
        },
        Some(c) => c,
    };
    let (g1, g2, g3) = match (get_group(&c, 1), get_group(&c, 2), get_group(&c, 3)) {
        (Some(a), Some(b), Some(d)) => (a, b, d),
        _ => {
            return Ok((Err(unsupported_condition_text(condition)), k));
        },
    };
    let lhs_name = trim_chars(&chars_of(g1.as_str()));
    let op = trim_chars(&chars_of(g2.as_str()));
    let rhs_raw = trim_chars(&chars_of(g3.as_str()));
    let li = match find_var(vars, &lhs_name) {
        None => {
            let mut e = chars_of("Unknown variable '");
            append_chars(&mut e, &lhs_name);
            append_chars(&mut e, &chars_of("' in condition."));
            return Ok((Err(e), k));
        },
        Some(li) => li,
    };
    let (rhs_str, k1) = match find_var(vars, &rhs_raw) {
        Some(ri) => display_var(&vars[ri], answers, k)?,
        None => (unquote_chars(&rhs_raw), k),
    };
    let (lhs_str, k2) = display_var(&vars[li], answers, k1)?;
    let (l, k3) = parse_float(&lhs_str, answers, k2)?;
    let (r, k4) = parse_float(&rhs_str, answers, k3)?;
    if !is_compare_op_chars(&op) {
        let mut e = chars_of("Unknown operator: ");
        append_chars(&mut e, &op);
        return Ok((Err(e), k4));
    }
    match (l, r) {
        (Some(lb), Some(rb)) => Ok((Ok(compare_bits(lb, rb, &op)), k4)),
        _ => Ok((Ok(compare_texts(&lhs_str, &rhs_str, &op)), k4)),
    }
}

/* Labels. */

/// The label table: later entries for a name replace earlier ones.
pub open spec fn labels_view(v: Seq<(String, usize)>) -> Map<Seq<char>, usize>
    decreases v.len(),
{
    if v.len() == 0 {
        Map::empty()
    } else {
        labels_view(v.drop_last()).insert(v.last().0@, v.last().1)
    }
}

pub open spec fn label_pattern() -> Seq<char> {
    r"(?is)^\s*label\s+(\w+)\s*(?:[;:](.*))?$"@
}

/// What follows `label name:` in the same statement, when anything does:
/// the statement that the label stands before.
pub open spec fn label_body(statement: Seq<char>) -> Option<Seq<char>> {
    match regex_captures(label_pattern(), statement) {
        Some(c) => group(c, 2),
        None => None,
    }
}

/// The label a statement declares.
pub open spec fn label_of(statement: Seq<char>) -> Option<Seq<char>> {
    match regex_captures(label_pattern(), statement) {
        Some(c) => group(c, 1),
        None => None,
    }
}

/// The label table after declaring, in order, the labels of the
/// statements: each label names the position of its statement.
pub open spec fn collect_labels(m: Map<Seq<char>, usize>, sts: Seq<Seq<char>>) -> Map<Seq<char>, usize>
    decreases sts.len(),
{
    if sts.len() == 0 {
        m
    } else {
        let prev = collect_labels(m, sts.drop_last());
        match label_of(sts.last()) {
            Some(n) => prev.insert(n, (sts.len() - 1) as usize),
            None => prev,
        }
    }
}

proof fn lemma_labels_suffix(v: Seq<(String, usize)>, i: int, name: Seq<char>)
    requires
        0 <= i <= v.len(),
        forall|j: int| i <= j < v.len() ==> v[j].0@ != name,
    ensures
        labels_view(v).contains_key(name) == labels_view(v.take(i)).contains_key(name),
        labels_view(v).contains_key(name) ==> labels_view(v)[name] == labels_view(v.take(i))[name],
    decreases v.len() - i,
{
    if i < v.len() {
        let w = v.drop_last();
        assert forall|j: int| i <= j < w.len() implies w[j].0@ != name by {
            assert(w[j] == v[j]);
        }
        lemma_labels_suffix(w, i, name);
        assert(w.take(i) =~= v.take(i));
        assert(v.last() == v[v.len() - 1]);
    } else {
        assert(v.take(i) =~= v);
    }
}

/// The position a label names.
pub fn lookup_label(labels: &Vec<(String, usize)>, name: &Vec<char>) -> (r: Option<usize>)
    ensures
        r == (if labels_view(labels@).contains_key(name@) {
            Some(labels_view(labels@)[name@])
        } else {
            None::<usize>
        }),
{
    let mut i: usize = labels.len();
    while i > 0
        invariant
            i <= labels.len(),
            forall|j: int| i <= j < labels@.len() ==> labels@[j].0@ != name@,
        decreases i,
    {
        let n = chars_of(labels[i - 1].0.as_str());
        if chars_eq(&n, name) {
            proof {
                lemma_labels_suffix(labels@, i as int, name@);
                let t = labels@.take(i as int);
                assert(t.drop_last() =~= labels@.take(i - 1));
                assert(t.last() == labels@[i - 1]);
            }
            return Some(labels[i - 1].1);
        }
        i = i - 1;
    }
    proof {
        lemma_labels_suffix(labels@, 0, name@);
        assert(labels@.take(0) =~= Seq::<(String, usize)>::empty());
    }
    None
}

/* Statement kinds. */

pub open spec fn keyword_pattern() -> Seq<char> {
    r"(?i)^\s*(read|write|let|print|branch|label|if)\b"@
}

pub open spec fn assign_pattern() -> Seq<char> {
    r"^\s*\w+\s*=[^=]"@
}

/// The kind of a statement: its leading keyword in lower case (the keyword
/// pattern matches ASCII letters only), or `assign` for `name = ...`.
pub open spec fn keyword_of(statement: Seq<char>) -> Option<Seq<char>> {
    let kw = match regex_captures(keyword_pattern(), statement) {
        Some(c) => group(c, 1),
        None => None,
    };
    match kw {
        Some(w) => Some(lower_seq(w)),
        None => if regex_is_match(assign_pattern(), statement) {
            Some("assign"@)
        } else {
            None
        },
    }
}

pub fn leading_keyword(statement: &str) -> (r: Option<Vec<char>>)
    ensures
        match r {
            Some(w) => keyword_of(statement@) == Some(w@),
            None => keyword_of(statement@) is None,
        },
{
    let caps = captures(r"(?i)^\s*(read|write|let|print|branch|label|if)\b", statement);
    let kw = match caps {
        Some(c) => get_group(&c, 1),
        None => None,
    };
    match kw {
        Some(w) => Some(crate::text::lower_chars(&chars_of(w.as_str()))),
        None => {
            if is_match(r"^\s*\w+\s*=[^=]", statement) {
                Some(chars_of("assign"))
            } else {
                None
            }
        },
    }
}

pub open spec fn args_error_text(e: ArgsError, statement: Seq<char>) -> Seq<char> {
    match e {
        ArgsError::MissingOpen => "Missing '(' in: "@ + statement,
        ArgsError::MissingClose => "Missing ')' in: "@ + statement,
        ArgsError::Mismatched => "Mismatched parentheses in: "@ + statement,
    }
}

/// The text between the first '(' and the last ')' of a statement.
pub open spec fn call_args_spec(statement: Seq<char>) -> Result<Seq<char>, Seq<char>> {
    match extract_args_spec(statement) {
        Ok(a) => Ok(a),
        Err(e) => Err(args_error_text(e, statement)),
    }
}

fn call_args(statement: &Vec<char>) -> (r: Result<Vec<char>, Vec<char>>)
    ensures
        text_result_view(r) == call_args_spec(statement@),
{
    match extract_args(statement) {
        Ok(a) => Ok(a),
        Err(e) => {
            let mut m = match e {
                ArgsError::MissingOpen => chars_of("Missing '(' in: "),
                ArgsError::MissingClose => chars_of("Missing ')' in: "),
                ArgsError::Mismatched => chars_of("Mismatched parentheses in: "),
            };
            append_chars(&mut m, statement);
            Err(m)
        },
    }
}

/// A `read(path)` statement: the path, or why the statement is wrong.
pub open spec fn read_spec(statement: Seq<char>) -> Result<Seq<char>, Seq<char>> {
    match call_args_spec(statement) {
        Err(e) => Err(e),
        Ok(a) => {
            let args = parse_args_spec(a);
            if args.len() != 1 {
                Err("read() expects exactly 1 argument, got "@ + crate::numbers::nat_text(args.len()) + ": "@ + statement)
            } else if trim(args[0]).len() == 0 {
                Err("read() got an empty filepath: "@ + statement)
            } else {
                Ok(args[0])
            }
        },
    }
}

fn handle_read(statement: &Vec<char>) -> (r: Result<Vec<char>, Vec<char>>)
    ensures
        text_result_view(r) == read_spec(statement@),
{
    let a = call_args(statement)?;
    let args = parse_args(&a);
    let ghost avs = args@.map_values(|v: Vec<char>| v@);
    assert(avs.len() == args@.len());
    if args.len() != 1 {
        let mut e = chars_of("read() expects exactly 1 argument, got ");
        append_chars(&mut e, &crate::numbers::u64_text(args.len() as u64));
        append_chars(&mut e, &chars_of(": "));
        append_chars(&mut e, statement);
        return Err(e);
    }
    assert(avs[0] == args@[0]@);
    let t = trim_chars(&args[0]);
    if t.len() == 0 {
        let mut e = chars_of("read() got an empty filepath: ");
        append_chars(&mut e, statement);
        return Err(e);
    }
    let path = slice_chars(&args[0], 0, args[0].len());
    assert(path@ =~= args@[0]@);
    Ok(path)
}

/// A `write(...)` statement: its arguments.
pub open spec fn write_spec(statement: Seq<char>) -> Result<Seq<Seq<char>>, Seq<char>> {
    match call_args_spec(statement) {
        Err(e) => Err(e),
        Ok(a) => Ok(parse_args_spec(a)),
    }
}

/// One item of a `print`: a variable's text and type, or the argument.
pub open spec fn print_item(vars: Seq<VarModel>, arg: Seq<char>, answers: Seq<Ans>, k: nat) -> Result<(Seq<char>, nat), StopModel> {
    match find_var_spec(vars, arg) {
        Some(i) => match show_var(vars[i as int], answers, k) {
            Ok((t, k2)) => Ok((t + " ("@ + type_debug_name(vars[i as int].t) + ")"@, k2)),
            Err(e) => Err(e),
        },
        None => Ok((arg, k)),
    }
}

pub open spec fn print_items(vars: Seq<VarModel>, args: Seq<Seq<char>>, answers: Seq<Ans>, k: nat) -> Result<(Seq<Seq<char>>, nat), StopModel>
    decreases args.len(),
{
    if args.len() == 0 {
        Ok((Seq::empty(), k))
    } else {
        match print_item(vars, args[0], answers, k) {
            Err(e) => Err(e),
            Ok((t, k1)) => match print_items(vars, args.drop_first(), answers, k1) {
                Err(e) => Err(e),
                Ok((ts, k2)) => Ok((seq![t] + ts, k2)),
            },
        }
    }
}

/// A `print(...)` statement: the line it prints.
pub open spec fn print_spec(vars: Seq<VarModel>, statement: Seq<char>, answers: Seq<Ans>, k: nat) -> Result<(Result<Seq<char>, Seq<char>>, nat), StopModel> {
    match call_args_spec(statement) {
        Err(e) => Ok((Err(e), k)),
        Ok(a) => {
            let args = parse_args_spec(a);
            if args.len() == 0 {
                Ok((Err("print() expects at least 1 argument: "@ + statement), k))
            } else {
                match print_items(vars, args, answers, k) {
                    Err(e) => Err(e),
                    Ok((ts, k2)) => Ok((Ok(join_with(ts, seq![' '])), k2)),
                }
            }
        },
    }
}

fn print_one(vars: &Vec<Variable>, arg: &Vec<char>, answers: &Vec<FloatAnswer>, k: usize) -> (r: Result<(Vec<char>, usize), Stop>)
    ensures
        match r {
            Ok((t, k2)) => print_item(vars_view(vars@), arg@, answers_view(answers@), k as nat) == Ok::<(Seq<char>, nat), StopModel>((t@, k2 as nat)),
            Err(s) => print_item(vars_view(vars@), arg@, answers_view(answers@), k as nat) == Err::<(Seq<char>, nat), StopModel>(stop_view(s)),
        },
{
    match find_var(vars, arg) {
        Some(vi) => {
            let (t, k2) = display_var(&vars[vi], answers, k)?;
            let mut t = t;
            append_chars(&mut t, &chars_of(" ("));
            append_chars(&mut t, &chars_of(vars[vi].var_type.debug_name()));
            append_chars(&mut t, &chars_of(")"));
            Ok((t, k2))
        },
        None => {
            let t = slice_chars(arg, 0, arg.len());
            assert(t@ =~= arg@);
            Ok((t, k))
        },
    }
}

#[verifier::rlimit(60)]
fn handle_print(vars: &Vec<Variable>, statement: &Vec<char>, answers: &Vec<FloatAnswer>, k: usize) -> (r: Result<(Result<Vec<char>, Vec<char>>, usize), Stop>)
    ensures
        match r {
            Ok((v, k2)) => print_spec(vars_view(vars@), statement@, answers_view(answers@), k as nat) == Ok::<(Result<Seq<char>, Seq<char>>, nat), StopModel>((text_result_view(v), k2 as nat)),
            Err(s) => print_spec(vars_view(vars@), statement@, answers_view(answers@), k as nat) == Err::<(Result<Seq<char>, Seq<char>>, nat), StopModel>(stop_view(s)),
        },
{
    let a = match call_args(statement) {
        Ok(a) => a,
        Err(e) => {
            return Ok((Err(e), k));
        },
    };
    let args = parse_args(&a);
    if args.len() == 0 {
        let mut e = chars_of("print() expects at least 1 argument: ");
        append_chars(&mut e, statement);
        return Ok((Err(e), k));
    }
    let ghost vs = vars_view(vars@);
    let ghost avs = args@.map_values(|v: Vec<char>| v@);
    let ghost ans = answers_view(answers@);
    let mut items: Vec<Vec<char>> = Vec::new();
    let mut kk = k;
    let mut i: usize = 0;
    assert(avs.skip(0) =~= avs);
    while i < args.len()
        invariant
            i <= args.len(),
            vs == vars_view(vars@),
            avs == args@.map_values(|v: Vec<char>| v@),
            ans == answers_view(answers@),
            call_args_spec(statement@) == Ok::<Seq<char>, Seq<char>>(a@),
            avs == parse_args_spec(a@),
            avs.len() > 0,
            print_items(vs, avs, ans, k as nat) == match print_items(vs, avs.skip(i as int), ans, kk as nat) {
                Err(e) => Err(e),
                Ok((ts, k2)) => Ok::<(Seq<Seq<char>>, nat), StopModel>((items@.map_values(|v: Vec<char>| v@) + ts, k2)),
            },
        decreases args.len() - i,
    {
        proof {
            assert(avs.skip(i as int)[0] == args@[i as int]@);
            assert(avs.skip(i as int).drop_first() =~= avs.skip(i + 1));
        }
        let step = print_one(vars, &args[i], answers, kk);
        let (item, k2) = match step {
            Ok(p) => p,
            Err(e) => {
                assert(print_items(vs, avs.skip(i as int), ans, kk as nat) == Err::<(Seq<Seq<char>>, nat), StopModel>(stop_view(e)));
                return Err(e);
            },
        };
        kk = k2;
        let ghost before = items@;
        items.push(item);
        proof {
            lemma_map_push(before, item, |v: Vec<char>| v@);
            let rest = print_items(vs, avs.skip(i + 1), ans, kk as nat);
            match rest {
                Ok((ts, k3)) => {
                    assert(before.map_values(|v: Vec<char>| v@) + (seq![item@] + ts) =~= items@.map_values(|v: Vec<char>| v@) + ts);
                },
                Err(_) => {},
            }
        }
        i = i + 1;
    }
    proof {
        assert(avs.skip(i as int) =~= Seq::<Seq<char>>::empty());
        assert(items@.map_values(|v: Vec<char>| v@) + Seq::<Seq<char>>::empty() =~= items@.map_values(|v: Vec<char>| v@));
    }
    let sep = vec![' '];
    assert(sep@ == seq![' ']);
    Ok((Ok(crate::text::join_chars(&items, &sep)), kk))
}

/* let statements. */

pub open spec fn let_pattern() -> Seq<char> {
    r##"(?i)^let\s+(\w+)\s*=\s*("[^"]*"|'[^']*'|`[^`]*`|[\w.]+)$"##@
}

pub open spec fn invalid_let(statement: Seq<char>) -> Seq<char> {
    "Invalid let statement: "@ + statement
}

/// The variable a literal makes, by the literal's inferred type: a string
/// without its quotes, `true` in any case for a bool, the parts between
/// commas (joined again by commas) for a vector, the text's bytes for an
/// unknown value.
pub open spec fn literal_var(name: Seq<char>, raw: Seq<char>, answers: Seq<Ans>, k: nat) -> Result<(Result<VarModel, Seq<char>>, nat), StopModel> {
    match infer_type_spec(raw) {
        Type::Numeric => make_numeric_spec(name, raw, answers, k),
        Type::String => Ok((Ok(VarModel { t: Type::String, data: encode_utf8(raw.subrange(1, raw.len() - 1)), name }), k)),
        Type::Bool => Ok((Ok(VarModel { t: Type::Bool, data: seq![if lower_seq(raw) == "true"@ { 1u8 } else { 0u8 }], name }), k)),
        Type::Null => Ok((Ok(VarModel { t: Type::Null, data: Seq::empty(), name }), k)),
        Type::Vector => Ok((Ok(VarModel { t: Type::Vector, data: encode_utf8(join_with(split_char(raw, ','), seq![','])), name }), k)),
        Type::Unknown => Ok((Ok(VarModel { t: Type::Unknown, data: encode_utf8(raw), name }), k)),
    }
}

/// A `let name = value` statement, given the capture groups of
/// `let_pattern` on the trimmed statement: the variable it adds. A value
/// that names a variable copies that variable under the new name.
pub open spec fn let_of_captures(vars: Seq<VarModel>, statement: Seq<char>, caps: Option<Seq<Option<Seq<char>>>>, answers: Seq<Ans>, k: nat) -> Result<(Result<VarModel, Seq<char>>, nat), StopModel> {
    match caps {
        None => Ok((Err(invalid_let(statement)), k)),
        Some(c) => {
            if group(c, 1) is Some && group(c, 2) is Some {
                let name = group(c, 1)->0;
                let raw = group(c, 2)->0;
                match find_var_spec(vars, raw) {
                    Some(i) => Ok((Ok(VarModel { t: vars[i as int].t, data: vars[i as int].data, name }), k)),
                    None => literal_var(name, raw, answers, k),
                }
            } else {
                Ok((Err(invalid_let(statement)), k))
            }
        },
    }
}

/// A `let` whose value is an expression: `let name = <right-hand side>`.
pub open spec fn let_expr_pattern() -> Seq<char> {
    r"(?is)^let\s+(\w+)\s*=\s*(.+)$"@
}

/// Whether a match has both its first and its second group.
pub open spec fn has_two_groups(caps: Option<Seq<Option<Seq<char>>>>) -> bool {
    caps matches Some(c) && group(c, 1) is Some && group(c, 2) is Some
}

/// A `let name = expression` statement, given the capture groups of
/// `let_expr_pattern` on the trimmed statement: the expression is evaluated
/// as the right-hand side of an assignment is (`eval_spec`), and the
/// variable made as an assignment of a new name makes it.
pub open spec fn let_expr_of_captures(vars: Seq<VarModel>, statement: Seq<char>, caps: Option<Seq<Option<Seq<char>>>>, answers: Seq<Ans>, k: nat) -> Result<(Result<VarModel, Seq<char>>, nat), StopModel> {
    if has_two_groups(caps) {
        let name = group(caps->0, 1)->0;
        let rhs = trim(group(caps->0, 2)->0);
        match eval_spec(vars, rhs, answers, k) {
            Err(e) => Err(e),
            Ok((Err(m), k1)) => Ok((Err(m), k1)),
            Ok((Ok(value), k1)) => assigned_var(name, value, false, answers, k1),
        }
    } else {
        Ok((Err(invalid_let(statement)), k))
    }
}

/// A `let` statement: a literal or a variable's name as the value (see
/// `let_of_captures`), else an expression (see `let_expr_of_captures`).
pub open spec fn let_spec(vars: Seq<VarModel>, statement: Seq<char>, answers: Seq<Ans>, k: nat) -> Result<(Result<VarModel, Seq<char>>, nat), StopModel> {
    let literal = regex_captures(let_pattern(), trim(statement));
    if has_two_groups(literal) {
        let_of_captures(vars, statement, literal, answers, k)
    } else {
        let_expr_of_captures(vars, statement, regex_captures(let_expr_pattern(), trim(statement)), answers, k)
    }
}

proof fn lemma_trim_len(s: Seq<char>)
    ensures
        trim(s).len() <= s.len(),
{
    crate::text::lemma_leading_spaces_bound(s);
    crate::text::lemma_trailing_spaces_bound(crate::text::trim_start(s));
}

/// The `&str` views of a vector of strings.
fn str_refs(v: &Vec<String>) -> (r: Vec<&str>)
    ensures
        r@.map_values(|s: &str| s@) == v@.map_values(|s: String| s@),
{
    let mut out: Vec<&str> = Vec::new();
    let mut i: usize = 0;
    while i < v.len()
        invariant
            i <= v.len(),
            out@.map_values(|s: &str| s@) == v@.take(i as int).map_values(|s: String| s@),
        decreases v.len() - i,
    {
        let ghost before = out@;
        let s = v[i].as_str();
        out.push(s);
        i = i + 1;
        proof {
            lemma_map_push(before, s, |s: &str| s@);
            assert(v@.take(i as int) =~= v@.take(i - 1).push(v@[i - 1]));
            lemma_map_push(v@.take(i - 1), v@[i - 1], |s: String| s@);
        }
    }
    assert(v@.take(i as int) =~= v@);
    out
}

fn literal_variable(name: &Vec<char>, raw: &Vec<char>, answers: &Vec<FloatAnswer>, k: usize) -> (r: Result<(Result<Variable, Vec<char>>, usize), Stop>)
    ensures
        match r {
            Ok((v, k2)) => literal_var(name@, raw@, answers_view(answers@), k as nat) == Ok::<(Result<VarModel, Seq<char>>, nat), StopModel>((var_result_view(v), k2 as nat)),
            Err(s) => literal_var(name@, raw@, answers_view(answers@), k as nat) == Err::<(Result<VarModel, Seq<char>>, nat), StopModel>(stop_view(s)),
        },
{
    let n = string_of(name);
    match infer_type_chars(raw) {
        Type::Numeric => make_numeric_var(name, raw, answers, k),
        Type::String => {
            proof {
                lemma_trim_len(raw@);
            }
            let inner = string_of(&slice_chars(raw, 1, raw.len() - 1));
            Ok((Ok(Variable::from_string(n.as_str(), inner.as_str())), k))
        },
        Type::Bool => {
            let t = crate::text::eq_ignore_ascii_case(raw, &chars_of("true"));
            proof {
                reveal_strlit("true");
                assert(lower_seq("true"@) =~= "true"@);
            }
            Ok((Ok(Variable::from_bool(n.as_str(), t)), k))
        },
        Type::Null => Ok((Ok(Variable::null(n.as_str())), k)),
        Type::Vector => {
            let parts = strings_of(&split_on(raw, ','));
            let refs = str_refs(&parts);
            let v = Variable::from_vector(n.as_str(), refs.as_slice());
            Ok((Ok(v), k))
        },
        Type::Unknown => {
            let bytes = crate::environment::utf8_bytes(raw);
            Ok((Ok(Variable::unknown(n.as_str(), bytes)), k))
        },
    }
}

pub fn let_from_captures(vars: &Vec<Variable>, statement: &Vec<char>, caps: Option<Vec<Option<String>>>, answers: &Vec<FloatAnswer>, k: usize) -> (r: Result<(Result<Variable, Vec<char>>, usize), Stop>)
    ensures
        match r {
            Ok((v, k2)) => let_of_captures(vars_view(vars@), statement@, captures_view(caps), answers_view(answers@), k as nat) == Ok::<(Result<VarModel, Seq<char>>, nat), StopModel>((var_result_view(v), k2 as nat)),
            Err(s) => let_of_captures(vars_view(vars@), statement@, captures_view(caps), answers_view(answers@), k as nat) == Err::<(Result<VarModel, Seq<char>>, nat), StopModel>(stop_view(s)),
        },
{
    let mut bad = chars_of("Invalid let statement: ");
    append_chars(&mut bad, statement);
    let c = match caps {
        None => {
            return Ok((Err(bad), k));
        },
        Some(c) => c,
    };
    let (g1, g2) = match (get_group(&c, 1), get_group(&c, 2)) {
        (Some(a), Some(b)) => (a, b),
        _ => {
            return Ok((Err(bad), k));
        },
    };
    let name = chars_of(g1.as_str());
    let raw = chars_of(g2.as_str());
    match find_var(vars, &raw) {
        Some(i) => {
            let v = Variable {
                var_type: vars[i].var_type,
                data: crate::environment::bytes_vec(vars[i].data.as_slice()),
                name: g1,
            };
            Ok((Ok(v), k))
        },
        None => literal_variable(&name, &raw, answers, k),
    }
}

fn handle_let(vars: &Vec<Variable>, statement: &Vec<char>, answers: &Vec<FloatAnswer>, k: usize) -> (r: Result<(Result<Variable, Vec<char>>, usize), Stop>)
    ensures
        match r {
            Ok((v, k2)) => let_spec(vars_view(vars@), statement@, answers_view(answers@), k as nat) == Ok::<(Result<VarModel, Seq<char>>, nat), StopModel>((var_result_view(v), k2 as nat)),
            Err(s) => let_spec(vars_view(vars@), statement@, answers_view(answers@), k as nat) == Err::<(Result<VarModel, Seq<char>>, nat), StopModel>(stop_view(s)),
        },
{
    let t = string_of(&trim_chars(statement));
    let caps = captures(r##"(?i)^let\s+(\w+)\s*=\s*("[^"]*"|'[^']*'|`[^`]*`|[\w.]+)$"##, t.as_str());
    if two_groups(&caps) {
        let_from_captures(vars, statement, caps, answers, k)
    } else {
        let expr = captures(r"(?is)^let\s+(\w+)\s*=\s*(.+)$", t.as_str());
        let_expr_from_captures(vars, statement, expr, answers, k)
    }
}

fn two_groups(caps: &Option<Vec<Option<String>>>) -> (r: bool)
    ensures
        r == has_two_groups(captures_view(*caps)),
{
    match caps {
        Some(c) => get_group(c, 1).is_some() && get_group(c, 2).is_some(),
        None => false,
    }
}

pub fn let_expr_from_captures(vars: &Vec<Variable>, statement: &Vec<char>, caps: Option<Vec<Option<String>>>, answers: &Vec<FloatAnswer>, k: usize) -> (r: Result<(Result<Variable, Vec<char>>, usize), Stop>)
    ensures
        match r {
            Ok((v, k2)) => let_expr_of_captures(vars_view(vars@), statement@, captures_view(caps), answers_view(answers@), k as nat) == Ok::<(Result<VarModel, Seq<char>>, nat), StopModel>((var_result_view(v), k2 as nat)),
            Err(s) => let_expr_of_captures(vars_view(vars@), statement@, captures_view(caps), answers_view(answers@), k as nat) == Err::<(Result<VarModel, Seq<char>>, nat), StopModel>(stop_view(s)),
        },
{
    let groups = match &caps {
        Some(c) => match (get_group(c, 1), get_group(c, 2)) {
            (Some(a), Some(b)) => Some((a, b)),
            _ => None,
        },
        None => None,
    };
    match groups {
        Some((g1, g2)) => {
            let name = chars_of(g1.as_str());
            let rhs = trim_chars(&chars_of(g2.as_str()));
            let (value, k1) = evaluate_expression(vars, &rhs, answers, k)?;
            match value {
                Err(m) => Ok((Err(m), k1)),
                Ok(v) => assigned_variable(&name, &v, false, answers, k1),
            }
        },
        None => {
            let mut bad = chars_of("Invalid let statement: ");
            append_chars(&mut bad, statement);
            Ok((Err(bad), k))
        },
    }
}

/// Evaluates a condition (see `condition_of_captures`).
pub fn evaluate_condition(vars: &Vec<Variable>, condition: &Vec<char>, answers: &Vec<FloatAnswer>, k: usize) -> (r: Result<(Result<bool, Vec<char>>, usize), Stop>)
    ensures
        match r {
            Ok((v, k2)) => condition_spec(vars_view(vars@), condition@, answers_view(answers@), k as nat) == Ok::<(Result<bool, Seq<char>>, nat), StopModel>((bool_result_view(v), k2 as nat)),
            Err(s) => condition_spec(vars_view(vars@), condition@, answers_view(answers@), k as nat) == Err::<(Result<bool, Seq<char>>, nat), StopModel>(stop_view(s)),
        },
{
    let c = string_of(condition);
    let caps = captures(r#"(?i)^\s*(\w+)\s*(==|!=|>=|<=|>|<)\s*(\w+|"[^"]*"|\d+\.?\d*)\s*$"#, c.as_str());
    condition_from_captures(vars, condition, caps, answers, k)
}

/* Jumps. */

pub open spec fn if_pattern() -> Seq<char> {
    r"(?i)^\s*if\s*\((.+)\)\s*branch\s+(\w+)\s*[;:]?\s*$"@
}

pub open spec fn branch_pattern() -> Seq<char> {
    r"(?i)^\s*branch\s+(\w+)\s*[;:]?\s*$"@
}

pub open spec fn label_missing(name: Seq<char>) -> Seq<char> {
    "Label '"@ + name + "' not found."@
}

/// Where a label sends the run.
pub open spec fn jump_to(labels: Map<Seq<char>, usize>, name: Seq<char>) -> Result<usize, Seq<char>> {
    if labels.contains_key(name) {
        Ok(labels[name])
    } else {
        Err(label_missing(name))
    }
}

/// An `if (condition) branch label` statement, given the capture groups of
/// `if_pattern`: `Some` position to jump to when the condition holds,
/// `None` to go on with the next statement.
pub open spec fn if_of_captures(vars: Seq<VarModel>, labels: Map<Seq<char>, usize>, statement: Seq<char>, caps: Option<Seq<Option<Seq<char>>>>, answers: Seq<Ans>, k: nat) -> Result<(Result<Option<usize>, Seq<char>>, nat), StopModel> {
    let bad = "Malformed if statement: "@ + statement;
    match caps {
        None => Ok((Err(bad), k)),
        Some(c) => {
            if group(c, 1) is Some && group(c, 2) is Some {
                let condition = trim(group(c, 1)->0);
                let label = trim(group(c, 2)->0);
                match condition_spec(vars, condition, answers, k) {
                    Err(e) => Err(e),
                    Ok((Err(m), k2)) => Ok((Err(m), k2)),
                    Ok((Ok(false), k2)) => Ok((Ok(None), k2)),
                    Ok((Ok(true), k2)) => match jump_to(labels, label) {
                        Ok(i) => Ok((Ok(Some(i)), k2)),
                        Err(m) => Ok((Err(m), k2)),
                    },
                }
            } else {
                Ok((Err(bad), k))
            }
        },
    }
}

pub open spec fn if_spec(vars: Seq<VarModel>, labels: Map<Seq<char>, usize>, statement: Seq<char>, answers: Seq<Ans>, k: nat) -> Result<(Result<Option<usize>, Seq<char>>, nat), StopModel> {
    if_of_captures(vars, labels, statement, regex_captures(if_pattern(), statement), answers, k)
}

/// A `branch label` statement, given the capture groups of `branch_pattern`:
/// the position to jump to.
pub open spec fn branch_of_captures(labels: Map<Seq<char>, usize>, statement: Seq<char>, caps: Option<Seq<Option<Seq<char>>>>) -> Result<usize, Seq<char>> {
    let target = match caps {
        Some(c) => group(c, 1),
        None => None,
    };
    match target {
        None => Err("Malformed branch statement: "@ + statement),
        Some(name) => jump_to(labels, name),
    }
}

/// The label a `branch` statement names.
pub open spec fn branch_target(statement: Seq<char>) -> Option<Seq<char>> {
    match regex_captures(branch_pattern(), statement) {
        Some(c) => group(c, 1),
        None => None,
    }
}

pub open spec fn branch_spec(labels: Map<Seq<char>, usize>, statement: Seq<char>) -> Result<usize, Seq<char>> {
    branch_of_captures(labels, statement, regex_captures(branch_pattern(), statement))
}

pub open spec fn opt_result_view(r: Result<Option<usize>, Vec<char>>) -> Result<Option<usize>, Seq<char>> {
    match r {
        Ok(b) => Ok(b),
        Err(e) => Err(e@),
    }
}

pub open spec fn pos_result_view(r: Result<usize, Vec<char>>) -> Result<usize, Seq<char>> {
    match r {
        Ok(b) => Ok(b),
        Err(e) => Err(e@),
    }
}

fn jump(labels: &Vec<(String, usize)>, name: &Vec<char>) -> (r: Result<usize, Vec<char>>)
    ensures
        pos_result_view(r) == jump_to(labels_view(labels@), name@),
{
    match lookup_label(labels, name) {
        Some(i) => Ok(i),
        None => {
            let mut e = chars_of("Label '");
            append_chars(&mut e, name);
            append_chars(&mut e, &chars_of("' not found."));
            Err(e)
        },
    }
}

pub fn if_from_captures(vars: &Vec<Variable>, labels: &Vec<(String, usize)>, statement: &Vec<char>, caps: Option<Vec<Option<String>>>, answers: &Vec<FloatAnswer>, k: usize) -> (r: Result<(Result<Option<usize>, Vec<char>>, usize), Stop>)
    ensures
        match r {
            Ok((v, k2)) => if_of_captures(vars_view(vars@), labels_view(labels@), statement@, captures_view(caps), answers_view(answers@), k as nat) == Ok::<(Result<Option<usize>, Seq<char>>, nat), StopModel>((opt_result_view(v), k2 as nat)),
            Err(s) => if_of_captures(vars_view(vars@), labels_view(labels@), statement@, captures_view(caps), answers_view(answers@), k as nat) == Err::<(Result<Option<usize>, Seq<char>>, nat), StopModel>(stop_view(s)),
        },
{
    let mut bad = chars_of("Malformed if statement: ");
    append_chars(&mut bad, statement);
    let c = match caps {
        None => {
            return Ok((Err(bad), k));
        },
        Some(c) => c,
    };
    let (g1, g2) = match (get_group(&c, 1), get_group(&c, 2)) {
        (Some(a), Some(b)) => (a, b),
        _ => {
            return Ok((Err(bad), k));
        },
    };
    let condition = trim_chars(&chars_of(g1.as_str()));
    let label = trim_chars(&chars_of(g2.as_str()));
    let (holds, k2) = evaluate_condition(vars, &condition, answers, k)?;
    match holds {
        Err(m) => Ok((Err(m), k2)),
        Ok(false) => Ok((Ok(None), k2)),
        Ok(true) => match jump(labels, &label) {
            Ok(i) => Ok((Ok(Some(i)), k2)),
            Err(m) => Ok((Err(m), k2)),
        },
    }
}

fn handle_if(vars: &Vec<Variable>, labels: &Vec<(String, usize)>, statement: &Vec<char>, answers: &Vec<FloatAnswer>, k: usize) -> (r: Result<(Result<Option<usize>, Vec<char>>, usize), Stop>)
    ensures
        match r {
            Ok((v, k2)) => if_spec(vars_view(vars@), labels_view(labels@), statement@, answers_view(answers@), k as nat) == Ok::<(Result<Option<usize>, Seq<char>>, nat), StopModel>((opt_result_view(v), k2 as nat)),
            Err(s) => if_spec(vars_view(vars@), labels_view(labels@), statement@, answers_view(answers@), k as nat) == Err::<(Result<Option<usize>, Seq<char>>, nat), StopModel>(stop_view(s)),
        },
{
    let st = string_of(statement);
    let caps = captures(r"(?i)^\s*if\s*\((.+)\)\s*branch\s+(\w+)\s*[;:]?\s*$", st.as_str());
    if_from_captures(vars, labels, statement, caps, answers, k)
}

pub fn branch_from_captures(labels: &Vec<(String, usize)>, statement: &Vec<char>, caps: Option<Vec<Option<String>>>) -> (r: Result<usize, Vec<char>>)
    ensures
        pos_result_view(r) == branch_of_captures(labels_view(labels@), statement@, captures_view(caps)),
{
    let target = match caps {
        Some(c) => get_group(&c, 1),
        None => None,
    };
    match target {
        None => {
            let mut e = chars_of("Malformed branch statement: ");
            append_chars(&mut e, statement);
            Err(e)
        },
        Some(name) => jump(labels, &chars_of(name.as_str())),
    }
}

/// The label a `branch` statement names (see `branch_pattern`).
pub fn parse_branch_target(statement: &str) -> (r: Option<String>)
    ensures
        match r {
            Some(name) => regex_captures(branch_pattern(), statement@) matches Some(c) && group(c, 1) == Some(name@),
            None => !(regex_captures(branch_pattern(), statement@) matches Some(c) && group(c, 1) is Some),
        },
{
    match captures(r"(?i)^\s*branch\s+(\w+)\s*[;:]?\s*$", statement) {
        Some(c) => get_group(&c, 1),
        None => None,
    }
}

fn handle_branch(labels: &Vec<(String, usize)>, statement: &Vec<char>) -> (r: Result<usize, Vec<char>>)
    ensures
        pos_result_view(r) == branch_spec(labels_view(labels@), statement@),
{
    let st = string_of(statement);
    let caps = captures(r"(?i)^\s*branch\s+(\w+)\s*[;:]?\s*$", st.as_str());
    branch_from_captures(labels, statement, caps)
}

/* Assignments. */

pub open spec fn arith_pattern() -> Seq<char> {
    r#"^\s*(["\w.]+)\s*([+\-*/%])\s*(["\w.]+)\s*$"#@
}

/// `s` without trailing ';' and ':' characters (`trim_end_matches`).
pub open spec fn strip_terminators(s: Seq<char>) -> Seq<char>
    decreases s.len(),
{
    if s.len() > 0 && (s.last() == ';' || s.last() == ':') {
        strip_terminators(s.drop_last())
    } else {
        s
    }
}

/// The value of a right-hand side without parentheses, given the capture
/// groups of `arith_pattern` on it: `a op b` is arithmetic on the operands,
/// anything else one operand.
pub open spec fn rhs_of_captures(vars: Seq<VarModel>, rhs: Seq<char>, caps: Option<Seq<Option<Seq<char>>>>, answers: Seq<Ans>, k: nat) -> Result<(Result<Seq<char>, Seq<char>>, nat), StopModel> {
    if caps is Some && group(caps->0, 1) is Some && group(caps->0, 2) is Some && group(caps->0, 3) is Some {
        let c = caps->0;
        let lhs_tok = trim(group(c, 1)->0);
        let op = trim(group(c, 2)->0);
        let rhs_tok = trim(group(c, 3)->0);
        match resolve_operand_spec(vars, lhs_tok, answers, k) {
            Err(e) => Err(e),
            Ok((l, k1)) => match resolve_operand_spec(vars, rhs_tok, answers, k1) {
                Err(e) => Err(e),
                Ok((r, k2)) => arith_spec(l, op, r, answers, k2),
            },
        }
    } else {
        match resolve_operand_spec(vars, rhs, answers, k) {
            Err(e) => Err(e),
            Ok((v, k1)) => Ok((Ok(v), k1)),
        }
    }
}

/// The variable an assignment stores: a number when the value's type is
/// numeric, else a string. A numeric value that does not parse is an error,
/// worded by whether the variable existed.
pub open spec fn assigned_var(name: Seq<char>, value: Seq<char>, existed: bool, answers: Seq<Ans>, k: nat) -> Result<(Result<VarModel, Seq<char>>, nat), StopModel> {
    if infer_type_spec(value) == Type::Numeric {
        match make_numeric_spec(name, value, answers, k) {
            Err(e) => Err(e),
            Ok((Ok(v), k1)) => Ok((Ok(v), k1)),
            Ok((Err(m), k1)) => Ok((Err(
                (if existed { "Arithmetic produced bad numeric '"@ } else { "Bad numeric '"@ }) + value + "': "@ + m,
            ), k1)),
        }
    } else {
        Ok((Ok(VarModel { t: Type::String, data: encode_utf8(value), name }), k))
    }
}

/// What an assignment does: the slot it overwrites (the first variable of
/// that name, if any; `None` to add a variable) and the variable it stores.
pub open spec fn assign_parts(vars: Seq<VarModel>, statement: Seq<char>, answers: Seq<Ans>, k: nat) -> Result<(Result<(Option<nat>, VarModel), Seq<char>>, nat), StopModel> {
    let stripped = strip_terminators(trim(statement));
    match first_index(stripped, '=') {
        None => Ok((Err("Missing '=' in assignment: "@ + statement), k)),
        Some(eq) => {
            let name = trim(stripped.subrange(0, eq));
            let rhs = trim(stripped.subrange(eq + 1, stripped.len() as int));
            if name.len() == 0 {
                Ok((Err("Empty variable name in assignment: "@ + statement), k))
            } else {
                match eval_spec(vars, rhs, answers, k) {
                    Err(e) => Err(e),
                    Ok((Err(m), k1)) => Ok((Err(m), k1)),
                    Ok((Ok(value), k1)) => {
                        let slot = find_var_spec(vars, name);
                        match assigned_var(name, value, slot is Some, answers, k1) {
                            Err(e) => Err(e),
                            Ok((Err(m), k2)) => Ok((Err(m), k2)),
                            Ok((Ok(v), k2)) => Ok((Ok((slot, v)), k2)),
                        }
                    },
                }
            }
        },
    }
}

pub open spec fn slot_result_view(r: Result<(Option<usize>, Variable), Vec<char>>) -> Result<(Option<nat>, VarModel), Seq<char>> {
    match r {
        Ok((Some(i), v)) => Ok((Some(i as nat), var_view(v))),
        Ok((None, v)) => Ok((None, var_view(v))),
        Err(e) => Err(e@),
    }
}

fn strip_terminators_chars(s: &Vec<char>) -> (r: Vec<char>)
    ensures
        r@ == strip_terminators(s@),
{
    let mut hi: usize = s.len();
    assert(s@.subrange(0, hi as int) =~= s@);
    while hi > 0 && (s[hi - 1] == ';' || s[hi - 1] == ':')
        invariant
            hi <= s.len(),
            strip_terminators(s@) == strip_terminators(s@.subrange(0, hi as int)),
        decreases hi,
    {
        assert(s@.subrange(0, hi as int).drop_last() =~= s@.subrange(0, hi - 1));
        hi = hi - 1;
    }
    slice_chars(s, 0, hi)
}

fn first_char_index(s: &Vec<char>, c: char) -> (r: Option<usize>)
    ensures
        match r {
            Some(i) => first_index(s@, c) == Some(i as int) && i < s@.len(),
            None => first_index(s@, c) is None,
        },
{
    let mut i: usize = 0;
    while i < s.len()
        invariant
            i <= s.len(),
            forall|j: int| 0 <= j < i ==> s@[j] != c,
        decreases s.len() - i,
    {
        if s[i] == c {
            proof {
                crate::syntax::lemma_first_index(s@, c, i as int);
            }
            return Some(i);
        }
        i = i + 1;
    }
    assert(!s@.contains(c));
    None
}

pub fn rhs_from_captures(vars: &Vec<Variable>, rhs: &Vec<char>, caps: Option<Vec<Option<String>>>, answers: &Vec<FloatAnswer>, k: usize) -> (r: Result<(Result<Vec<char>, Vec<char>>, usize), Stop>)
    ensures
        match r {
            Ok((v, k2)) => rhs_of_captures(vars_view(vars@), rhs@, captures_view(caps), answers_view(answers@), k as nat) == Ok::<(Result<Seq<char>, Seq<char>>, nat), StopModel>((text_result_view(v), k2 as nat)),
            Err(s) => rhs_of_captures(vars_view(vars@), rhs@, captures_view(caps), answers_view(answers@), k as nat) == Err::<(Result<Seq<char>, Seq<char>>, nat), StopModel>(stop_view(s)),
        },
{
    let groups = match caps {
        Some(c) => match (get_group(&c, 1), get_group(&c, 2), get_group(&c, 3)) {
            (Some(a), Some(b), Some(d)) => Some((a, b, d)),
            _ => None,
        },
        None => None,
    };
    match groups {
        Some((g1, g2, g3)) => {
            let lhs_tok = trim_chars(&chars_of(g1.as_str()));
            let op = trim_chars(&chars_of(g2.as_str()));
            let rhs_tok = trim_chars(&chars_of(g3.as_str()));
            let (l, k1) = resolve_operand(vars, &lhs_tok, answers, k)?;
            let (r, k2) = resolve_operand(vars, &rhs_tok, answers, k1)?;
            apply_arithmetic(&l, &op, &r, answers, k2)
        },
        None => {
            let (v, k1) = resolve_operand(vars, rhs, answers, k)?;
            Ok((Ok(v), k1))
        },
    }
}

fn assigned_variable(name: &Vec<char>, value: &Vec<char>, existed: bool, answers: &Vec<FloatAnswer>, k: usize) -> (r: Result<(Result<Variable, Vec<char>>, usize), Stop>)
    ensures
        match r {
            Ok((v, k2)) => assigned_var(name@, value@, existed, answers_view(answers@), k as nat) == Ok::<(Result<VarModel, Seq<char>>, nat), StopModel>((var_result_view(v), k2 as nat)),
            Err(s) => assigned_var(name@, value@, existed, answers_view(answers@), k as nat) == Err::<(Result<VarModel, Seq<char>>, nat), StopModel>(stop_view(s)),
        },
{
    let n = string_of(name);
    match infer_type_chars(value) {
        Type::Numeric => {
            let (made, k1) = make_numeric_var(name, value, answers, k)?;
            match made {
                Ok(v) => Ok((Ok(v), k1)),
                Err(m) => {
                    let mut e = if existed {
                        chars_of("Arithmetic produced bad numeric '")
                    } else {
                        chars_of("Bad numeric '")
                    };
                    append_chars(&mut e, value);
                    append_chars(&mut e, &chars_of("': "));
                    append_chars(&mut e, &m);
                    Ok((Err(e), k1))
                },
            }
        },
        _ => {
            let v = string_of(value);
            Ok((Ok(Variable::from_string(n.as_str(), v.as_str())), k))
        },
    }
}

fn handle_assign(vars: &Vec<Variable>, statement: &Vec<char>, answers: &Vec<FloatAnswer>, k: usize) -> (r: Result<(Result<(Option<usize>, Variable), Vec<char>>, usize), Stop>)
    ensures
        match r {
            Ok((v, k2)) => assign_parts(vars_view(vars@), statement@, answers_view(answers@), k as nat) == Ok::<(Result<(Option<nat>, VarModel), Seq<char>>, nat), StopModel>((slot_result_view(v), k2 as nat)),
            Err(s) => assign_parts(vars_view(vars@), statement@, answers_view(answers@), k as nat) == Err::<(Result<(Option<nat>, VarModel), Seq<char>>, nat), StopModel>(stop_view(s)),
        },
        r matches Ok((Ok((Some(i), _)), _)) ==> i < vars@.len(),
{
    let stripped = strip_terminators_chars(&trim_chars(statement));
    let eq = match first_char_index(&stripped, '=') {
        None => {
            let mut e = chars_of("Missing '=' in assignment: ");
            append_chars(&mut e, statement);
            return Ok((Err(e), k));
        },
        Some(eq) => eq,
    };
    let name = trim_chars(&slice_chars(&stripped, 0, eq));
    let rhs = trim_chars(&slice_chars(&stripped, eq + 1, stripped.len()));
    if name.len() == 0 {
        let mut e = chars_of("Empty variable name in assignment: ");
        append_chars(&mut e, statement);
        return Ok((Err(e), k));
    }
    let (value, k1) = evaluate_expression(vars, &rhs, answers, k)?;
    let value = match value {
        Err(m) => {
            return Ok((Err(m), k1));
        },
        Ok(v) => v,
    };
    let slot = find_var(vars, &name);
    let (made, k2) = assigned_variable(&name, &value, slot.is_some(), answers, k1)?;
    match made {
        Err(m) => Ok((Err(m), k2)),
        Ok(v) => Ok((Ok((slot, v)), k2)),
    }
}

/* Parenthesised expressions. */

pub open spec fn is_op_char(c: char) -> bool {
    c == '+' || c == '-' || c == '*' || c == '/' || c == '%'
}

/// The first operator at or after `i` that stands outside every pair of
/// parentheses and every double-quoted text and is not the first
/// character; `depth` and `quoted` describe `t[..i]`.
pub open spec fn op_scan(t: Seq<char>, i: int, depth: int, quoted: bool) -> Option<int>
    decreases t.len() - i,
{
    if i < 0 || i >= t.len() {
        None
    } else if t[i] == '"' {
        op_scan(t, i + 1, depth, !quoted)
    } else if quoted {
        op_scan(t, i + 1, depth, quoted)
    } else if t[i] == '(' {
        op_scan(t, i + 1, depth + 1, quoted)
    } else if t[i] == ')' {
        op_scan(t, i + 1, depth - 1, quoted)
    } else if depth == 0 && i > 0 && is_op_char(t[i]) {
        Some(i)
    } else {
        op_scan(t, i + 1, depth, quoted)
    }
}

/// The operator joining the two sides of `left op right`.
pub open spec fn top_op(t: Seq<char>) -> Option<int> {
    op_scan(t, 0, 0, false)
}

/// The value of a right-hand side. Text without parentheses is one `a op b`
/// node or one operand (see `rhs_of_captures`). Otherwise `left op right`,
/// split at the first operator outside parentheses and quotes, evaluates
/// both sides the same way and applies the operator to their values; text
/// wholly inside one pair of parentheses is the value of what is inside;
/// anything else is one operand.
#[verifier::opaque]
pub open spec fn eval_spec(vars: Seq<VarModel>, t: Seq<char>, answers: Seq<Ans>, k: nat) -> Result<(Result<Seq<char>, Seq<char>>, nat), StopModel>
    decreases t.len(),
{
    let flat = rhs_of_captures(vars, t, regex_captures(arith_pattern(), t), answers, k);
    if !t.contains('(') {
        flat
    } else {
        match top_op(t) {
            Some(p) => if 0 < p < t.len() {
                let l = trim(t.subrange(0, p));
                let r = trim(t.subrange(p + 1, t.len() as int));
                proof {
                    crate::text::lemma_trim_idempotent(t.subrange(0, p));
                    crate::text::lemma_trim_idempotent(t.subrange(p + 1, t.len() as int));
                }
                match eval_spec(vars, l, answers, k) {
                    Err(e) => Err(e),
                    Ok((Err(m), k1)) => Ok((Err(m), k1)),
                    Ok((Ok(lv), k1)) => match eval_spec(vars, r, answers, k1) {
                        Err(e) => Err(e),
                        Ok((Err(m), k2)) => Ok((Err(m), k2)),
                        Ok((Ok(rv), k2)) => arith_spec(lv, seq![t[p]], rv, answers, k2),
                    },
                }
            } else {
                flat
            },
            None => if t.len() >= 2 && t[0] == '(' && t.last() == ')' {
                let inner = trim(t.subrange(1, t.len() - 1));
                proof {
                    crate::text::lemma_trim_idempotent(t.subrange(1, t.len() - 1));
                }
                eval_spec(vars, inner, answers, k)
            } else {
                flat
            },
        }
    }
}

fn top_operator(t: &Vec<char>) -> (r: Option<usize>)
    ensures
        match r {
            Some(p) => top_op(t@) == Some(p as int) && 0 < p < t.len(),
            None => top_op(t@) is None,
        },
{
    let mut i: usize = 0;
    let mut depth: i128 = 0;
    let mut quoted = false;
    while i < t.len()
        invariant
            i <= t.len(),
            -(i as int) <= depth <= i,
            top_op(t@) == op_scan(t@, i as int, depth as int, quoted),
        decreases t.len() - i,
    {
        let c = t[i];
        if c == '"' {
            quoted = !quoted;
        } else if quoted {
        } else if c == '(' {
            depth = depth + 1;
        } else if c == ')' {
            depth = depth - 1;
        } else if depth == 0 && i > 0 && (c == '+' || c == '-' || c == '*' || c == '/' || c == '%') {
            return Some(i);
        }
        i = i + 1;
    }
    None
}

/// Evaluates a right-hand side (see `eval_spec`).
pub fn evaluate_expression(vars: &Vec<Variable>, t: &Vec<char>, answers: &Vec<FloatAnswer>, k: usize) -> (r: Result<(Result<Vec<char>, Vec<char>>, usize), Stop>)
    ensures
        match r {
            Ok((v, k2)) => eval_spec(vars_view(vars@), t@, answers_view(answers@), k as nat) == Ok::<(Result<Seq<char>, Seq<char>>, nat), StopModel>((text_result_view(v), k2 as nat)),
            Err(s) => eval_spec(vars_view(vars@), t@, answers_view(answers@), k as nat) == Err::<(Result<Seq<char>, Seq<char>>, nat), StopModel>(stop_view(s)),
        },
    decreases t.len(),
{
    proof {
        reveal(eval_spec);
    }
    if contains_char(t, '(') {
        match top_operator(t) {
            Some(p) => {
                let l = trim_chars(&slice_chars(t, 0, p));
                let r = trim_chars(&slice_chars(t, p + 1, t.len()));
                proof {
                    crate::text::lemma_trim_idempotent(t@.subrange(0, p as int));
                    crate::text::lemma_trim_idempotent(t@.subrange(p + 1, t@.len() as int));
                }
                let (lv, k1) = evaluate_expression(vars, &l, answers, k)?;
                let lv = match lv {
                    Err(m) => {
                        return Ok((Err(m), k1));
                    },
                    Ok(v) => v,
                };
                let (rv, k2) = evaluate_expression(vars, &r, answers, k1)?;
                let rv = match rv {
                    Err(m) => {
                        return Ok((Err(m), k2));
                    },
                    Ok(v) => v,
                };
                let op = vec![t[p]];
                assert(op@ == seq![t@[p as int]]);
                return apply_arithmetic(&lv, &op, &rv, answers, k2);
            },
            None => {
                if t.len() >= 2 && t[0] == '(' && t[t.len() - 1] == ')' {
                    let inner = trim_chars(&slice_chars(t, 1, t.len() - 1));
                    proof {
                        crate::text::lemma_trim_idempotent(t@.subrange(1, t@.len() - 1));
                    }
                    return evaluate_expression(vars, &inner, answers, k);
                }
            },
        }
    }
    let ts = string_of(t);
    let caps = captures(r#"^\s*(["\w.]+)\s*([+\-*/%])\s*(["\w.]+)\s*$"#, ts.as_str());
    rhs_from_captures(vars, t, caps, answers, k)
}

/* The interpreter. */

pub struct Interpreter {
    pub data: Option<CSV>,
    pub parser: Parser,
    pub vars: Vec<Variable>,
    /// Each label with the position of the statement that declares it; a
    /// later entry for a name wins.
    pub labels: Vec<(String, usize)>,
    /// The position of the statement to run next.
    pub index: usize,
}

/// What one call of `Interpreter::go` asks of its caller.
pub enum Step {
    /// Append the answer to this request to the answers and call again.
    NeedFloat(FloatRequest),
    /// An answer was of the wrong kind for its request.
    AnswerMismatch,
    /// The statement was carried out; call again with no answers.
    Continue,
    /// Load the CSV file at this path into `data`, then go on.
    Read(String),
    /// Report a `write` call: the statement and its arguments.
    Write { statement: String, args: Vec<String> },
    /// Print this line, then go on.
    Print(String),
    /// No statement is left to run.
    Finished,
    /// The run stops with this error.
    Fail(String),
}

pub enum StepModel {
    NeedFloat(Req),
    AnswerMismatch,
    Continue,
    Read(Seq<char>),
    Write(Seq<char>, Seq<Seq<char>>),
    Print(Seq<char>),
    Finished,
    Fail(Seq<char>),
}

pub open spec fn step_view(s: Step) -> StepModel {
    match s {
        Step::NeedFloat(r) => StepModel::NeedFloat(req_view(r)),
        Step::AnswerMismatch => StepModel::AnswerMismatch,
        Step::Continue => StepModel::Continue,
        Step::Read(p) => StepModel::Read(p@),
        Step::Write { statement, args } => StepModel::Write(statement@, args@.map_values(|a: String| a@)),
        Step::Print(l) => StepModel::Print(l@),
        Step::Finished => StepModel::Finished,
        Step::Fail(m) => StepModel::Fail(m@),
    }
}

pub open spec fn stopped(s: StopModel) -> StepModel {
    match s {
        StopModel::Ask(r) => StepModel::NeedFloat(r),
        StopModel::Mismatch => StepModel::AnswerMismatch,
    }
}

pub open spec fn statements_view(st: Option<Vec<String>>) -> Option<Seq<Seq<char>>> {
    match st {
        Some(v) => Some(v@.map_values(|s: String| s@)),
        None => None,
    }
}

/// The statement that runs for `statement`: for `label name: body` with a
/// non-blank body, the body (trimmed); else the statement itself.
pub open spec fn effective_statement(statement: Seq<char>) -> Seq<char> {
    if keyword_of(statement) == Some("label"@) && label_body(statement) is Some && trim(label_body(statement)->0).len() > 0 {
        trim(label_body(statement)->0)
    } else {
        statement
    }
}

/// One statement run: the variables after it, the position of the next
/// statement and what the caller is asked to do. A label that stands before
/// a statement runs that statement.
pub open spec fn run_statement(vars: Seq<VarModel>, labels: Map<Seq<char>, usize>, index: nat, statement: Seq<char>, answers: Seq<Ans>) -> (Seq<VarModel>, nat, StepModel) {
    run_simple(vars, labels, index, effective_statement(statement), answers)
}

/// One statement run, by its keyword. A statement that fails, or that waits
/// for an answer, leaves variables and position as they were.
pub open spec fn run_simple(vars: Seq<VarModel>, labels: Map<Seq<char>, usize>, index: nat, statement: Seq<char>, answers: Seq<Ans>) -> (Seq<VarModel>, nat, StepModel) {
    let kw = keyword_of(statement);
    if kw == Some("label"@) {
        (vars, index + 1, StepModel::Continue)
    } else if kw == Some("read"@) {
        match read_spec(statement) {
            Ok(p) => (vars, index + 1, StepModel::Read(p)),
            Err(m) => (vars, index, StepModel::Fail(m)),
        }
    } else if kw == Some("write"@) {
        match write_spec(statement) {
            Ok(args) => (vars, index + 1, StepModel::Write(statement, args)),
            Err(m) => (vars, index, StepModel::Fail(m)),
        }
    } else if kw == Some("let"@) {
        match let_spec(vars, statement, answers, 0) {
            Err(s) => (vars, index, stopped(s)),
            Ok((Err(m), _)) => (vars, index, StepModel::Fail(m)),
            Ok((Ok(v), _)) => (vars.push(v), index + 1, StepModel::Continue),
        }
    } else if kw == Some("print"@) {
        match print_spec(vars, statement, answers, 0) {
            Err(s) => (vars, index, stopped(s)),
            Ok((Err(m), _)) => (vars, index, StepModel::Fail(m)),
            Ok((Ok(line), _)) => (vars, index + 1, StepModel::Print(line)),
        }
    } else if kw == Some("if"@) {
        match if_spec(vars, labels, statement, answers, 0) {
            Err(s) => (vars, index, stopped(s)),
            Ok((Err(m), _)) => (vars, index, StepModel::Fail(m)),
            Ok((Ok(Some(j)), _)) => (vars, j as nat, StepModel::Continue),
            Ok((Ok(None), _)) => (vars, index + 1, StepModel::Continue),
        }
    } else if kw == Some("branch"@) {
        match branch_spec(labels, statement) {
            Ok(j) => (vars, j as nat, StepModel::Continue),
            Err(m) => (vars, index, StepModel::Fail(m)),
        }
    } else if kw == Some("assign"@) {
        match assign_parts(vars, statement, answers, 0) {
            Err(s) => (vars, index, stopped(s)),
            Ok((Err(m), _)) => (vars, index, StepModel::Fail(m)),
            Ok((Ok((Some(i), v)), _)) => (vars.update(i as int, v), index + 1, StepModel::Continue),
            Ok((Ok((None, v)), _)) => (vars.push(v), index + 1, StepModel::Continue),
        }
    } else {
        (vars, index, StepModel::Fail("Unrecognized statement: "@ + statement))
    }
}

/// The run of the statement at `index` (trimmed), or `Finished` when there
/// is none.
pub open spec fn step_spec(statements: Option<Seq<Seq<char>>>, vars: Seq<VarModel>, labels: Map<Seq<char>, usize>, index: nat, answers: Seq<Ans>) -> (Seq<VarModel>, nat, StepModel) {
    match statements {
        Some(st) => if index < st.len() {
            run_statement(vars, labels, index, trim(st[index as int]), answers)
        } else {
            (vars, index, StepModel::Finished)
        },
        None => (vars, index, StepModel::Finished),
    }
}

fn fail(m: Vec<char>) -> (r: Step)
    ensures
        step_view(r) == StepModel::Fail(m@),
{
    Step::Fail(string_of(&m))
}

fn stop_step(s: Stop) -> (r: Step)
    ensures
        step_view(r) == stopped(stop_view(s)),
{
    match s {
        Stop::Ask(q) => Step::NeedFloat(q),
        Stop::Mismatch => Step::AnswerMismatch,
    }
}

fn is_word(w: &Vec<char>, word: &str) -> (r: bool)
    ensures
        r == (w@ == word@),
{
    chars_eq(w, &chars_of(word))
}

/// The statement that runs for `statement` (see `effective_statement`).
fn effective(statement: &Vec<char>) -> (r: Vec<char>)
    ensures
        r@ == effective_statement(statement@),
{
    let s = string_of(statement);
    let kw = leading_keyword(s.as_str());
    let is_label = match &kw {
        Some(w) => is_word(w, "label"),
        None => false,
    };
    if is_label {
        let body = match captures(r"(?is)^\s*label\s+(\w+)\s*(?:[;:](.*))?$", s.as_str()) {
            Some(c) => get_group(&c, 2),
            None => None,
        };
        match body {
            Some(b) => {
                let t = trim_chars(&chars_of(b.as_str()));
                if t.len() > 0 {
                    return t;
                }
            },
            None => {},
        }
    }
    let r = slice_chars(statement, 0, statement.len());
    assert(r@ =~= statement@);
    r
}

impl Interpreter {
    /// Records the label of every statement that declares one, with the
    /// statement's position.
    pub fn get_labels(&mut self)
        ensures
            final(self).data == old(self).data,
            final(self).parser == old(self).parser,
            final(self).vars == old(self).vars,
            final(self).index == old(self).index,
            old(self).parser.statements is None ==> final(self).labels == old(self).labels,
            old(self).parser.statements matches Some(st) ==> labels_view(final(self).labels@)
                == collect_labels(labels_view(old(self).labels@), st@.map_values(|s: String| s@)),
    {
        let n = match &self.parser.statements {
            Some(st) => st.len(),
            None => {
                return;
            },
        };
        let ghost ss = self.parser.statements->0@.map_values(|s: String| s@);
        let ghost m0 = labels_view(self.labels@);
        let mut i: usize = 0;
        while i < n
            invariant
                i <= n,
                self.parser.statements matches Some(st) && st@.len() == n && ss == st@.map_values(|s: String| s@),
                self.data == old(self).data,
                self.parser == old(self).parser,
                self.vars == old(self).vars,
                self.index == old(self).index,
                m0 == labels_view(old(self).labels@),
                labels_view(self.labels@) == collect_labels(m0, ss.take(i as int)),
            decreases n - i,
        {
            let caps = match &self.parser.statements {
                Some(st) => captures(r"(?is)^\s*label\s+(\w+)\s*(?:[;:](.*))?$", st[i].as_str()),
                None => None,
            };
            proof {
                assert(ss.take(i + 1).drop_last() =~= ss.take(i as int));
                assert(ss.take(i + 1).last() == ss[i as int]);
            }
            let label = match caps {
                Some(c) => get_group(&c, 1),
                None => None,
            };
            match label {
                Some(name) => {
                    let ghost before = self.labels@;
                    self.labels.push((name, i));
                    proof {
                        assert(self.labels@.drop_last() =~= before);
                    }
                },
                None => {},
            }
            i = i + 1;
        }
        assert(ss.take(n as int) =~= ss);
    }

    /// Splits the program text into statements and records the labels;
    /// gives the statements whose brackets or quotes do not balance.
    pub fn prepare(&mut self) -> (r: Result<Vec<String>, StatementsError>)
        ensures
            final(self).data == old(self).data,
            final(self).vars == old(self).vars,
            final(self).index == old(self).index,
            final(self).parser.contents == old(self).parser.contents,
            final(self).parser.filepath == old(self).parser.filepath,
            r is Err ==> final(self).parser.statements == old(self).parser.statements
                && final(self).labels == old(self).labels,
            old(self).parser.contents is None ==> r == Err::<Vec<String>, StatementsError>(StatementsError::NoContents),
            old(self).parser.contents matches Some(c) ==> match statements_of(c@) {
                Ok(st) => r matches Ok(bad) && statements_view(final(self).parser.statements) == Some(st)
                    && bad@.map_values(|s: String| s@) == unbalanced(st)
                    && labels_view(final(self).labels@) == collect_labels(labels_view(old(self).labels@), st),
                Err(e) => r == Err::<Vec<String>, StatementsError>(e),
            },
    {
        self.parser.get_statements()?;
        let bad = self.fail_early();
        self.get_labels();
        Ok(bad)
    }

    /// The statements whose brackets or quotes do not balance, in order.
    pub fn fail_early(&self) -> (r: Vec<String>)
        ensures
            self.parser.statements is None ==> r@.len() == 0,
            self.parser.statements matches Some(st) ==> r@.map_values(|s: String| s@)
                == unbalanced(st@.map_values(|s: String| s@)),
    {
        unbalanced_statements(&self.parser.statements)
    }

    /// Whether the brackets and quotes of `input` balance.
    pub fn check_parentheses_structure(&self, input: &str) -> (r: bool)
        ensures
            r == balanced(input@),
    {
        check_structure(&chars_of(input))
    }

    /// The arguments of an argument list.
    pub fn parse_args(&self, args_text: &str) -> (r: Vec<String>)
        ensures
            r@.map_values(|s: String| s@) == parse_args_spec(args_text@),
    {
        strings_of(&parse_args(&chars_of(args_text)))
    }

    /// An argument trimmed and without enclosing double quotes.
    pub fn clean_arg(&self, arg: &str) -> (r: String)
        ensures
            r@ == clean_arg_spec(arg@),
    {
        string_of(&clean_arg(&chars_of(arg)))
    }

    /// `{NAME: name}TYPE: type}` for the first variable called `obj`, or
    /// the empty string.
    pub fn dereference(&self, obj: &str) -> (r: String)
        ensures
            r@ == match find_var_spec(vars_view(self.vars@), obj@) {
                Some(i) => "{NAME: "@ + obj@ + "}"@ + "TYPE: "@ + type_word(self.vars@[i as int].var_type) + "}"@,
                None => Seq::<char>::empty(),
            },
    {
        let name = chars_of(obj);
        match find_var(&self.vars, &name) {
            Some(i) => {
                assert(vars_view(self.vars@)[i as int].name == self.vars@[i as int].name@);
                let mut t = chars_of("{NAME: ");
                append_chars(&mut t, &chars_of(self.vars[i].name.as_str()));
                append_chars(&mut t, &chars_of("}"));
                append_chars(&mut t, &chars_of("TYPE: "));
                append_chars(&mut t, &chars_of(self.vars[i].var_type.as_str()));
                append_chars(&mut t, &chars_of("}"));
                string_of(&t)
            },
            None => String::new(),
        }
    }

    /// Runs the statement at `index` as far as the answers given reach
    /// (see `step_spec`). The answers are those to the requests of this
    /// statement, in the order they were asked.
    pub fn go(&mut self, answers: &Vec<FloatAnswer>) -> (r: Step)
        ensures
            final(self).data == old(self).data,
            final(self).parser == old(self).parser,
            final(self).labels == old(self).labels,
            ({
                let (v, i, s) = step_spec(
                    statements_view(old(self).parser.statements),
                    vars_view(old(self).vars@),
                    labels_view(old(self).labels@),
                    old(self).index as nat,
                    answers_view(answers@),
                );
                vars_view(final(self).vars@) == v && final(self).index as nat == i && step_view(r) == s
            }),
    {
        let statement = match &self.parser.statements {
            Some(st) => {
                if self.index >= st.len() {
                    return Step::Finished;
                }
                trim_chars(&chars_of(st[self.index].as_str()))
            },
            None => {
                return Step::Finished;
            },
        };
        proof {
            let st = self.parser.statements->0;
            assert(st@.map_values(|s: String| s@)[self.index as int] == st@[self.index as int]@);
        }
        let statement = effective(&statement);
        self.run(&statement, answers)
    }

    /// Runs one statement by its keyword (see `run_simple`).
    #[verifier::rlimit(60)]
    fn run(&mut self, st: &Vec<char>, answers: &Vec<FloatAnswer>) -> (r: Step)
        requires
            old(self).index < usize::MAX,
        ensures
            final(self).data == old(self).data,
            final(self).parser == old(self).parser,
            final(self).labels == old(self).labels,
            ({
                let (v, i, s) = run_simple(
                    vars_view(old(self).vars@),
                    labels_view(old(self).labels@),
                    old(self).index as nat,
                    st@,
                    answers_view(answers@),
                );
                vars_view(final(self).vars@) == v && final(self).index as nat == i && step_view(r) == s
            }),
    {
        let statement = slice_chars(st, 0, st.len());
        assert(statement@ =~= st@);
        let st_str = string_of(&statement);
        let kw = match leading_keyword(st_str.as_str()) {
            Some(w) => w,
            None => {
                let mut e = chars_of("Unrecognized statement: ");
                append_chars(&mut e, &statement);
                return fail(e);
            },
        };
        if is_word(&kw, "label") {
            self.index = self.index + 1;
            Step::Continue
        } else if is_word(&kw, "read") {
            match handle_read(&statement) {
                Ok(p) => {
                    self.index = self.index + 1;
                    Step::Read(string_of(&p))
                },
                Err(m) => fail(m),
            }
        } else if is_word(&kw, "write") {
            match call_args(&statement) {
                Ok(a) => {
                    let args = strings_of(&parse_args(&a));
                    self.index = self.index + 1;
                    Step::Write { statement: st_str, args }
                },
                Err(m) => fail(m),
            }
        } else if is_word(&kw, "let") {
            match handle_let(&self.vars, &statement, answers, 0) {
                Err(s) => stop_step(s),
                Ok((Err(m), _)) => fail(m),
                Ok((Ok(v), _)) => {
                    self.vars.push(v);
                    self.index = self.index + 1;
                    Step::Continue
                },
            }
        } else if is_word(&kw, "print") {
            match handle_print(&self.vars, &statement, answers, 0) {
                Err(s) => stop_step(s),
                Ok((Err(m), _)) => fail(m),
                Ok((Ok(line), _)) => {
                    self.index = self.index + 1;
                    Step::Print(string_of(&line))
                },
            }
        } else if is_word(&kw, "if") {
            match handle_if(&self.vars, &self.labels, &statement, answers, 0) {
                Err(s) => stop_step(s),
                Ok((Err(m), _)) => fail(m),
                Ok((Ok(Some(j)), _)) => {
                    self.index = j;
                    Step::Continue
                },
                Ok((Ok(None), _)) => {
                    self.index = self.index + 1;
                    Step::Continue
                },
            }
        } else if is_word(&kw, "branch") {
            match handle_branch(&self.labels, &statement) {
                Ok(j) => {
                    self.index = j;
                    Step::Continue
                },
                Err(m) => fail(m),
            }
        } else if is_word(&kw, "assign") {
            match handle_assign(&self.vars, &statement, answers, 0) {
                Err(s) => stop_step(s),
                Ok((Err(m), _)) => fail(m),
                Ok((Ok((Some(i), v)), _)) => {
                    self.vars.set(i, v);
                    self.index = self.index + 1;
                    Step::Continue
                },
                Ok((Ok((None, v)), _)) => {
                    self.vars.push(v);
                    self.index = self.index + 1;
                    Step::Continue
                },
            }
        } else {
            let mut e = chars_of("Unrecognized statement: ");
            append_chars(&mut e, &statement);
            fail(e)
        }
    }
}

/* Laws. */

proof fn lemma_find_var_from_push(vars: Seq<VarModel>, v: VarModel, name: Seq<char>, i: nat)
    requires
        i <= vars.len(),
    ensures
        find_var_from(vars.push(v), name, i) == match find_var_from(vars, name, i) {
            Some(j) => Some(j),
            None => if v.name == name { Some(vars.len()) } else { None },
        },
    decreases vars.len() - i,
{
    if i < vars.len() {
        assert(vars.push(v)[i as int] == vars[i as int]);
        lemma_find_var_from_push(vars, v, name, i + 1);
    } else {
        assert(vars.push(v)[i as int] == v);
        assert(find_var_from(vars.push(v), name, i + 1) is None);
    }
}

proof fn lemma_find_var_from_update(vars: Seq<VarModel>, k: nat, v: VarModel, name: Seq<char>, i: nat)
    requires
        i <= k < vars.len(),
        find_var_from(vars, name, i) == Some(k),
        v.name == name,
    ensures
        find_var_from(vars.update(k as int, v), name, i) == Some(k),
    decreases k - i,
{
    if i < k {
        assert(vars.update(k as int, v)[i as int] == vars[i as int]);
        lemma_find_var_from_update(vars, k, v, name, i + 1);
    }
}

proof fn lemma_find_var_from_found(vars: Seq<VarModel>, name: Seq<char>, i: nat)
    ensures
        find_var_from(vars, name, i) matches Some(j) ==> i <= j < vars.len() && vars[j as int].name == name,
    decreases vars.len() - i,
{
    if i < vars.len() && vars[i as int].name != name {
        lemma_find_var_from_found(vars, name, i + 1);
    }
}

/// Reading a variable after an assignment to it gives what was assigned:
/// the assignment overwrites the first variable of that name, or adds one,
/// and a lookup of the name then finds the stored variable.
pub proof fn law_assign_then_read(vars: Seq<VarModel>, v: VarModel)
    ensures
        ({
            let after = match find_var_spec(vars, v.name) {
                Some(i) => vars.update(i as int, v),
                None => vars.push(v),
            };
            find_var_spec(after, v.name) matches Some(j) && after[j as int] == v
        }),
{
    lemma_find_var_from_found(vars, v.name, 0);
    match find_var_spec(vars, v.name) {
        Some(i) => {
            lemma_find_var_from_update(vars, i, v, v.name, 0);
        },
        None => {
            lemma_find_var_from_push(vars, v, v.name, 0);
        },
    }
}

/// A `let` adds its variable after the others: a name that was not in use
/// then reads as the new variable, and one that was keeps reading as the
/// earlier variable.
pub proof fn law_let_then_read(vars: Seq<VarModel>, v: VarModel)
    ensures
        find_var_spec(vars, v.name) is None ==> find_var_spec(vars.push(v), v.name) == Some(vars.len()),
        find_var_spec(vars, v.name) is Some ==> find_var_spec(vars.push(v), v.name) == find_var_spec(vars, v.name),
{
    lemma_find_var_from_push(vars, v, v.name, 0);
}

/// A statement that waits for an answer, or fails, changes neither the
/// variables nor the position; so does the end of the program.
#[verifier::rlimit(50)]
pub proof fn law_waiting_changes_nothing(statements: Option<Seq<Seq<char>>>, vars: Seq<VarModel>, labels: Map<Seq<char>, usize>, index: nat, answers: Seq<Ans>)
    ensures
        ({
            let (v, i, s) = step_spec(statements, vars, labels, index, answers);
            (s is NeedFloat || s is AnswerMismatch || s is Fail || s is Finished) ==> v == vars && i == index
        }),
{
}

/// A `label` statement with nothing after it does nothing but pass on to
/// the next statement; one that stands before a statement runs that
/// statement.
pub proof fn law_label_passes(vars: Seq<VarModel>, labels: Map<Seq<char>, usize>, index: nat, statement: Seq<char>, answers: Seq<Ans>)
    requires
        keyword_of(statement) == Some("label"@),
    ensures
        (label_body(statement) matches Some(b) && trim(b).len() > 0) ==> run_statement(vars, labels, index, statement, answers)
            == run_simple(vars, labels, index, trim(label_body(statement)->0), answers),
        !(label_body(statement) matches Some(b) && trim(b).len() > 0) ==> run_statement(vars, labels, index, statement, answers)
            == (vars, index + 1, StepModel::Continue),
{
}

/// A `branch` to a declared label moves to the position recorded for it,
/// and changes nothing else.
pub proof fn law_branch_jumps(vars: Seq<VarModel>, labels: Map<Seq<char>, usize>, index: nat, statement: Seq<char>, answers: Seq<Ans>, n: Seq<char>)
    requires
        keyword_of(statement) == Some("branch"@),
        branch_target(statement) == Some(n),
        labels.contains_key(n),
    ensures
        run_statement(vars, labels, index, statement, answers) == (vars, labels[n] as nat, StepModel::Continue),
{
    reveal_strlit("branch");
    reveal_strlit("label");
    reveal_strlit("read");
    reveal_strlit("write");
    reveal_strlit("let");
    reveal_strlit("print");
    reveal_strlit("if");
    assert("branch"@.len() == 6 && "label"@.len() == 5 && "read"@.len() == 4 && "write"@.len() == 5);
    assert("let"@.len() == 3 && "print"@.len() == 5 && "if"@.len() == 2);
}

/// Statements run in order: one that completes without jumping (any but
/// `if` and `branch`) is followed by the next statement.
pub proof fn law_runs_in_order(vars: Seq<VarModel>, labels: Map<Seq<char>, usize>, index: nat, statement: Seq<char>, answers: Seq<Ans>)
    ensures
        ({
            let (v, i, s) = run_statement(vars, labels, index, statement, answers);
            let e = effective_statement(statement);
            &&& (s is Read || s is Write || s is Print) ==> i == index + 1
            &&& (s is Continue && keyword_of(e) != Some("if"@) && keyword_of(e) != Some("branch"@)) ==> i == index + 1
        }),
{
}

/// Parentheses around a whole expression change nothing: `(e)` has the
/// value of `e` (trimmed), when no operator stands outside the parentheses.
pub proof fn law_parentheses_transparent(vars: Seq<VarModel>, t: Seq<char>, answers: Seq<Ans>, k: nat)
    requires
        top_op(seq!['('] + t + seq![')']) is None,
    ensures
        eval_spec(vars, seq!['('] + t + seq![')'], answers, k) == eval_spec(vars, trim(t), answers, k),
{
    reveal(eval_spec);
    let w = seq!['('] + t + seq![')'];
    assert(w[0] == '(');
    assert(w.contains('('));
    assert(w.last() == ')');
    assert(w.subrange(1, w.len() - 1) =~= t);
}

proof fn lemma_text_less_irreflexive(a: Seq<char>)
    ensures
        !text_less(a, a),
    decreases a.len(),
{
    if a.len() > 0 {
        lemma_text_less_irreflexive(a.drop_first());
    }
}

proof fn lemma_text_less_order(a: Seq<char>, b: Seq<char>)
    ensures
        text_less(a, b) ==> !text_less(b, a) && a != b,
        a != b ==> text_less(a, b) || text_less(b, a),
    decreases a.len(),
{
    lemma_text_less_irreflexive(a);
    if a.len() > 0 && b.len() > 0 {
        lemma_text_less_order(a.drop_first(), b.drop_first());
        if a[0] == b[0] && a != b {
            assert(a =~= seq![a[0]] + a.drop_first());
            assert(b =~= seq![b[0]] + b.drop_first());
        }
        if a[0] != b[0] {
            vstd::utf8::char_u32_cast(a[0], a[0] as u32);
            vstd::utf8::char_u32_cast(b[0], b[0] as u32);
            assert((a[0] as u32) != (b[0] as u32));
        }
    } else if a.len() == 0 && b.len() == 0 {
        assert(a =~= b);
    }
}

/// Text order is lexicographic by character: a text comes before every
/// longer text that starts with it, and texts that start with different
/// characters are ordered by those characters.
pub proof fn law_text_order_is_lexicographic(a: Seq<char>, b: Seq<char>)
    ensures
        b.len() > 0 ==> text_less(a, a + b),
        forall|x: char, y: char| (x as u32) < (y as u32) ==> #[trigger] text_less(seq![x] + a, seq![y] + b),
    decreases a.len(),
{
    if a.len() > 0 && b.len() > 0 {
        law_text_order_is_lexicographic(a.drop_first(), b);
        assert((a + b).drop_first() =~= a.drop_first() + b);
    }
    assert forall|x: char, y: char| (x as u32) < (y as u32) implies #[trigger] text_less(seq![x] + a, seq![y] + b) by {
        assert((seq![x] + a)[0] == x);
        assert((seq![y] + b)[0] == y);
    }
}

/// String comparison in conditions is a strict total order with its usual
/// companions: exactly one of `a < b`, `a == b`, `a > b` holds, `<=` is
/// `<` or `==`, `>=` is `>` or `==`, `!=` is not `==`, and swapping the
/// sides swaps `<` with `>` and `<=` with `>=`; in particular `a <= a`.
pub proof fn law_text_comparison(a: Seq<char>, b: Seq<char>)
    ensures
        text_compare(a, b, seq!['=', '=']) == (a == b),
        text_compare(a, b, seq!['!', '=']) == (a != b),
        text_compare(a, b, seq!['<', '=']) == (text_compare(a, b, seq!['<']) || a == b),
        text_compare(a, b, seq!['>', '=']) == (text_compare(a, b, seq!['>']) || a == b),
        text_compare(a, b, seq!['<', '=']) == text_compare(b, a, seq!['>', '=']),
        text_compare(a, b, seq!['<']) == text_compare(b, a, seq!['>']),
        (text_compare(a, b, seq!['<']) as int) + ((a == b) as int) + (text_compare(a, b, seq!['>']) as int) == 1,
        text_compare(a, a, seq!['<', '=']) && text_compare(a, a, seq!['>', '=']) && !text_compare(a, a, seq!['<']),
{
    law_text_order_is_lexicographic(a, b);
    lemma_text_less_order(a, b);
    lemma_text_less_order(b, a);
    lemma_text_less_irreflexive(a);
    assert(seq!['<', '='] != seq!['=', '=']) by {
        assert(seq!['<', '='][0] != seq!['=', '='][0]);
    }
    assert(seq!['<', '='] != seq!['!', '=']) by {
        assert(seq!['<', '='][0] != seq!['!', '='][0]);
    }
    assert(seq!['<', '='] != seq!['>', '=']) by {
        assert(seq!['<', '='][0] != seq!['>', '='][0]);
    }
    assert(seq!['>', '='] != seq!['=', '=']) by {
        assert(seq!['>', '='][0] != seq!['=', '='][0]);
    }
    assert(seq!['>', '='] != seq!['!', '=']) by {
        assert(seq!['>', '='][0] != seq!['!', '='][0]);
    }
    assert(seq!['!', '='] != seq!['=', '=']) by {
        assert(seq!['!', '='][0] != seq!['=', '='][0]);
    }
    assert(seq!['<'] != seq!['=', '=']);
    assert(seq!['<'] != seq!['!', '=']);
    assert(seq!['<'] != seq!['>', '=']);
    assert(seq!['<'] != seq!['>']) by {
        assert(seq!['<'][0] != seq!['>'][0]);
    }
    assert(seq!['>'] != seq!['=', '=']);
    assert(seq!['>'] != seq!['!', '=']);
    assert(seq!['<', '='] != seq!['<']) by {
        assert(seq!['<', '='].len() != seq!['<'].len());
    }
    assert(seq!['<', '='] != seq!['>']) by {
        assert(seq!['<', '='].len() != seq!['>'].len());
    }
    assert(seq!['>', '='] != seq!['>']) by {
        assert(seq!['>', '='].len() != seq!['>'].len());
    }
}

/// `+` with an operand that is not a number joins the two texts: whatever
/// the float answers, a completed `+` gives `lhs` followed by `rhs`, and with
/// neither side a number no answer is needed at all.
pub proof fn law_plus_joins_text(lhs: Seq<char>, rhs: Seq<char>, answers: Seq<Ans>, k: nat)
    requires
        !(float_literal(lhs) && float_literal(rhs)),
    ensures
        arith_spec(lhs, seq!['+'], rhs, answers, k) matches Ok((v, _)) ==> v == Ok::<Seq<char>, Seq<char>>(lhs + rhs),
        !float_literal(lhs) && !float_literal(rhs) ==> arith_spec(lhs, seq!['+'], rhs, answers, k)
            == Ok::<(Result<Seq<char>, Seq<char>>, nat), StopModel>((Ok(lhs + rhs), k)),
{
}

/// `let x = false` (in any case) makes a bool variable that reads back as
/// false, and `let x = true` one that reads back as true.
pub proof fn law_let_bool_literal(name: Seq<char>, raw: Seq<char>, answers: Seq<Ans>, k: nat)
    requires
        lower_seq(trim(raw)) == seq!['f', 'a', 'l', 's', 'e'] || lower_seq(trim(raw)) == seq!['t', 'r', 'u', 'e'],
        trim(raw) == raw,
    ensures
        ({
            let b = lower_seq(raw) == seq!['t', 'r', 'u', 'e'];
            &&& literal_var(name, raw, answers, k) == Ok::<(Result<VarModel, Seq<char>>, nat), StopModel>(
                (Ok(VarModel { t: Type::Bool, data: seq![if b { 1u8 } else { 0u8 }], name }), k),
            )
            &&& crate::environment::value_of(Type::Bool, seq![if b { 1u8 } else { 0u8 }])
                == Ok::<crate::environment::ValueModel, crate::environment::ConvertError>(crate::environment::ValueModel::Flag(b))
        }),
{
    crate::environment::law_bool_literals(raw);
    reveal_strlit("true");
    assert("true"@ =~= seq!['t', 'r', 'u', 'e']);
}

/// The label table holds, for each label declared in the program, the
/// position of the last statement that declares it, and nothing else.
pub proof fn law_label_positions(sts: Seq<Seq<char>>)
    requires
        sts.len() <= usize::MAX + 1,
    ensures
        forall|n: Seq<char>| #[trigger] collect_labels(Map::empty(), sts).contains_key(n) ==> {
            let i = collect_labels(Map::empty(), sts)[n] as int;
            0 <= i < sts.len() && label_of(sts[i]) == Some(n) && forall|j: int| i < j < sts.len() ==> label_of(#[trigger] sts[j]) != Some(n)
        },
        forall|i: int| 0 <= i < sts.len() && (#[trigger] label_of(sts[i])) is Some ==> collect_labels(Map::empty(), sts).contains_key(label_of(sts[i])->0),
    decreases sts.len(),
{
    if sts.len() > 0 {
        let init = sts.drop_last();
        law_label_positions(init);
        let prev = collect_labels(Map::empty(), init);
        let m = collect_labels(Map::empty(), sts);
        assert forall|n: Seq<char>| #[trigger] m.contains_key(n) implies {
            let i = m[n] as int;
            0 <= i < sts.len() && label_of(sts[i]) == Some(n) && forall|j: int| i < j < sts.len() ==> label_of(#[trigger] sts[j]) != Some(n)
        } by {
            if label_of(sts.last()) == Some(n) {
                assert(m[n] == (sts.len() - 1) as usize);
                assert(sts[sts.len() - 1] == sts.last());
            } else {
                assert(prev.contains_key(n));
                assert(m[n] == prev[n]);
                let i = prev[n] as int;
                assert(init[i] == sts[i]);
                assert forall|j: int| i < j < sts.len() implies label_of(#[trigger] sts[j]) != Some(n) by {
                    if j < sts.len() - 1 {
                        assert(init[j] == sts[j]);
                    } else {
                        assert(sts[j] == sts.last());
                    }
                }
            }
        }
        assert forall|i: int| 0 <= i < sts.len() && (#[trigger] label_of(sts[i])) is Some implies m.contains_key(label_of(sts[i])->0) by {
            if i < sts.len() - 1 {
                assert(init[i] == sts[i]);
                assert(prev.contains_key(label_of(init[i])->0));
            } else {
                assert(sts[i] == sts.last());
            }
        }
    }
}

/// A vector literal is stored as its own text: splitting at the commas
/// and joining with commas again changes nothing.
pub proof fn law_vector_literal_keeps_text(name: Seq<char>, raw: Seq<char>, answers: Seq<Ans>, k: nat)
    requires
        infer_type_spec(raw) == Type::Vector,
    ensures
        literal_var(name, raw, answers, k) == Ok::<(Result<VarModel, Seq<char>>, nat), StopModel>(
            (Ok(VarModel { t: Type::Vector, data: encode_utf8(raw), name }), k),
        ),
{
    crate::text::lemma_join_split(raw, ',');
}

/// An arithmetic result that is a whole number below 10^15 in magnitude is
/// written as an integer, and that text, stored by an assignment, makes an
/// integer-origin number of the same value.
pub proof fn law_whole_result_reads_back(res: u64, name: Seq<char>, answers: Seq<Ans>, k: nat)
    requires
        f64_small_integral(res),
    ensures
        ({
            let v = f64_to_i64(res);
            &&& result_text(res, answers, k) == Ok::<(Seq<char>, nat), StopModel>((int_text(v), k))
            &&& parse_i64_spec(int_text(v)) == Some(v)
            &&& infer_type_spec(int_text(v)) == Type::Numeric
            &&& make_numeric_spec(name, int_text(v), answers, k) == Ok::<(Result<VarModel, Seq<char>>, nat), StopModel>((Ok(int_var(name, v)), k))
        }),
{
    let v = f64_to_i64(res);
    assert(i64::MIN <= v <= i64::MAX);
    crate::numbers::lemma_parse_int_text(v as i64);
    let t = int_text(v);
    assert(t.len() > 0 && !crate::text::is_space(t[0]) && !crate::text::is_space(t.last())) by {
        crate::numbers::lemma_int_text_shape(v as i64);
    }
    crate::text::lemma_leading_spaces_is(t, 0);
    crate::text::lemma_trailing_spaces_is(t, 0);
    assert(t.skip(0) =~= t);
    assert(t.take(t.len() as int) =~= t);
    assert(trim(t) == t);
    assert(lower_seq(t).len() == t.len());
    if t.len() == 4 || t.len() == 5 {
        assert(t.last() != 'l' && t.last() != 'e') by {
            crate::numbers::lemma_int_text_shape(v as i64);
        }
        assert(lower_seq(t).last() == crate::text::lower(t.last()));
    }
}

} // verus!
