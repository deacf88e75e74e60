//! Lexical checks on statements shared by the compiler and the
//! interpreter: bracket and quote balance, and argument lists.

use vstd::prelude::*;
use crate::text::{append_chars, lemma_map_push, slice_chars, trim, trim_chars};

verus! {

/// The state of the bracket scanner.
pub struct Scan {
    pub stack: Seq<char>,
    pub dq: bool,
    pub sq: bool,
    pub failed: bool,
}

pub open spec fn scan_init() -> Scan {
    Scan { stack: Seq::empty(), dq: false, sq: false, failed: false }
}

pub open spec fn opener_of(c: char) -> char {
    if c == ')' {
        '('
    } else if c == '}' {
        '{'
    } else {
        '['
    }
}

/// One character: double quotes toggle outside single quotes and the other
/// way round; inside quotes nothing else counts; an opening bracket is
/// pushed; a closing bracket must match the last open one.
pub open spec fn scan_step(st: Scan, ch: char) -> Scan {
    if st.failed {
        st
    } else if ch == '"' && !st.sq {
        Scan { dq: !st.dq, ..st }
    } else if ch == '\'' && !st.dq {
        Scan { sq: !st.sq, ..st }
    } else if st.dq || st.sq {
        st
    } else if ch == '(' || ch == '{' || ch == '[' {
        Scan { stack: st.stack.push(ch), ..st }
    } else if ch == ')' || ch == '}' || ch == ']' {
        if st.stack.len() > 0 && st.stack.last() == opener_of(ch) {
            Scan { stack: st.stack.drop_last(), ..st }
        } else {
            Scan { failed: true, ..st }
        }
    } else {
        st
    }
}

pub open spec fn scan_from(st: Scan, s: Seq<char>) -> Scan
    decreases s.len(),
{
    if s.len() == 0 {
        st
    } else {
        scan_step(scan_from(st, s.drop_last()), s.last())
    }
}

/// Brackets `()`, `{}` and `[]` nest properly and every quote is closed;
/// brackets inside quotes do not count.
pub open spec fn balanced(s: Seq<char>) -> bool {
    let st = scan_from(scan_init(), s);
    !st.failed && !st.dq && !st.sq && st.stack.len() == 0
}

/// Checks `balanced`.
pub fn check_structure(input: &Vec<char>) -> (r: bool)
    ensures
        r == balanced(input@),
{
    let mut stack: Vec<char> = Vec::new();
    let mut dq = false;
    let mut sq = false;
    let mut i: usize = 0;
    assert(input@.take(0) =~= Seq::<char>::empty());
    while i < input.len()
        invariant
            i <= input.len(),
            scan_from(scan_init(), input@.take(i as int)) == (Scan {
                stack: stack@,
                dq,
                sq,
                failed: false,
            }),
        decreases input.len() - i,
    {
        let ch = input[i];
        proof {
            assert(input@.take(i + 1).drop_last() =~= input@.take(i as int));
            assert(input@.take(i + 1).last() == ch);
        }
        i = i + 1;
        if ch == '"' && !sq {
            dq = !dq;
        } else if ch == '\'' && !dq {
            sq = !sq;
        } else if dq || sq {
        } else if ch == '(' || ch == '{' || ch == '[' {
            stack.push(ch);
        } else if ch == ')' || ch == '}' || ch == ']' {
            let want = if ch == ')' {
                '('
            } else if ch == '}' {
                '{'
            } else {
                '['
            };
            if stack.len() > 0 && stack[stack.len() - 1] == want {
                stack.pop();
            } else {
                proof {
                    lemma_failed_stays(input@, i as nat);
                }
                return false;
            }
        }
    }
    assert(input@.take(i as int) =~= input@);
    !dq && !sq && stack.len() == 0
}

/// Once the scan fails it stays failed.
proof fn lemma_failed_stays(s: Seq<char>, i: nat)
    requires
        i <= s.len(),
        scan_from(scan_init(), s.take(i as int)).failed,
    ensures
        scan_from(scan_init(), s).failed,
    decreases s.len() - i,
{
    if i < s.len() {
        assert(s.take((i + 1) as int).drop_last() =~= s.take(i as int));
        lemma_failed_stays(s, (i + 1) as nat);
    } else {
        assert(s.take(i as int) =~= s);
    }
}

/// Scanning `a + b` is scanning `a`, then `b` from where `a` left off.
pub proof fn lemma_scan_concat(st: Scan, a: Seq<char>, b: Seq<char>)
    ensures
        scan_from(st, a + b) == scan_from(scan_from(st, a), b),
    decreases b.len(),
{
    if b.len() == 0 {
        assert(a + b =~= a);
    } else {
        lemma_scan_concat(st, a, b.drop_last());
        assert((a + b).drop_last() =~= a + b.drop_last());
        assert((a + b).last() == b.last());
    }
}

/// Two balanced texts one after the other are balanced.
pub proof fn law_balanced_concat(a: Seq<char>, b: Seq<char>)
    requires
        balanced(a),
        balanced(b),
    ensures
        balanced(a + b),
{
    lemma_scan_concat(scan_init(), a, b);
    let sa = scan_from(scan_init(), a);
    assert(sa.stack =~= Seq::<char>::empty());
    assert(sa == scan_init());
}

/// Inside double quotes nothing but a double quote counts: scanning text
/// that holds no double quote from inside a double-quoted string (outside
/// single quotes) changes nothing, whatever brackets or single quotes the
/// text holds.
pub proof fn law_double_quoted_text_inert(st: Scan, s: Seq<char>)
    requires
        st.dq,
        !st.sq,
        !s.contains('"'),
    ensures
        scan_from(st, s) == st,
    decreases s.len(),
{
    if s.len() > 0 {
        law_double_quoted_text_inert(st, s.drop_last());
        assert(s.last() == s[s.len() - 1]);
        assert forall|i: int| 0 <= i < s.drop_last().len() implies s.drop_last()[i] != '"' by {
            assert(s.drop_last()[i] == s[i]);
        }
    }
}

/// Inside single quotes nothing but a single quote counts, in the same way.
pub proof fn law_single_quoted_text_inert(st: Scan, s: Seq<char>)
    requires
        st.sq,
        !st.dq,
        !s.contains('\''),
    ensures
        scan_from(st, s) == st,
    decreases s.len(),
{
    if s.len() > 0 {
        law_single_quoted_text_inert(st, s.drop_last());
        assert(s.last() == s[s.len() - 1]);
        assert forall|i: int| 0 <= i < s.drop_last().len() implies s.drop_last()[i] != '\'' by {
            assert(s.drop_last()[i] == s[i]);
        }
    }
}

proof fn lemma_scan_one(st: Scan, c: char)
    ensures
        scan_from(st, seq![c]) == scan_step(st, c),
{
    assert(seq![c].drop_last() =~= Seq::<char>::empty());
    assert(scan_from(st, Seq::<char>::empty()) == st);
    assert(seq![c].last() == c);
}

/// A double-quoted string with no double quote inside is balanced, and
/// putting one between two texts keeps them balanced.
pub proof fn law_double_quoted_balanced(a: Seq<char>, s: Seq<char>, b: Seq<char>)
    requires
        !s.contains('"'),
        balanced(a),
        balanced(b),
    ensures
        balanced(seq!['"'] + s + seq!['"']),
        balanced(a + (seq!['"'] + s + seq!['"']) + b),
{
    let open = scan_step(scan_init(), '"');
    lemma_scan_one(scan_init(), '"');
    lemma_scan_concat(scan_init(), seq!['"'], s);
    law_double_quoted_text_inert(open, s);
    lemma_scan_concat(scan_init(), seq!['"'] + s, seq!['"']);
    lemma_scan_one(open, '"');
    let q = seq!['"'] + s + seq!['"'];
    assert(scan_from(scan_init(), q) == scan_init()) by {
        assert(scan_init().stack =~= Seq::<char>::empty());
    }
    law_balanced_concat(a, q);
    law_balanced_concat(a + q, b);
}

pub open spec fn is_special(c: char) -> bool {
    c == '"' || c == '\'' || c == '(' || c == ')' || c == '{' || c == '}' || c == '[' || c == ']'
}

proof fn lemma_plain_scan(s: Seq<char>)
    requires
        forall|i: int| 0 <= i < s.len() ==> !is_special(#[trigger] s[i]),
    ensures
        scan_from(scan_init(), s) == scan_init(),
    decreases s.len(),
{
    if s.len() > 0 {
        let t = s.drop_last();
        assert forall|i: int| 0 <= i < t.len() implies !is_special(#[trigger] t[i]) by {
            assert(t[i] == s[i]);
        }
        lemma_plain_scan(t);
        assert(!is_special(s[s.len() - 1]));
    }
}

/// Text without quotes or brackets is balanced.
pub proof fn law_plain_text_balanced(s: Seq<char>)
    requires
        forall|i: int| 0 <= i < s.len() ==> !is_special(#[trigger] s[i]),
    ensures
        balanced(s),
{
    lemma_plain_scan(s);
}

/// `scan_from` with a stack prefix: while it does not fail, scanning from a
/// state whose stack starts with `p` keeps `p` below what scanning from an
/// empty stack builds.
proof fn lemma_scan_prefix(p: Seq<char>, s: Seq<char>)
    requires
        !scan_from(scan_init(), s).failed,
    ensures
        scan_from(Scan { stack: p, ..scan_init() }, s) == (Scan {
            stack: p + scan_from(scan_init(), s).stack,
            ..scan_from(scan_init(), s)
        }),
    decreases s.len(),
{
    if s.len() == 0 {
        assert(p + Seq::<char>::empty() =~= p);
    } else {
        let t = s.drop_last();
        let ch = s.last();
        let r0 = scan_from(scan_init(), t);
        if r0.failed {
            assert(scan_step(r0, ch).failed);
        }
        lemma_scan_prefix(p, t);
        let q = scan_from(Scan { stack: p, ..scan_init() }, t);
        assert(q.stack == p + r0.stack);
        let r1 = scan_step(r0, ch);
        let q1 = scan_step(q, ch);
        assert(scan_from(scan_init(), s) == r1);
        assert(scan_from(Scan { stack: p, ..scan_init() }, s) == q1);
        if !r0.dq && !r0.sq && (ch == '(' || ch == '{' || ch == '[') {
            assert(q1.stack =~= p + r1.stack);
        } else if !r0.dq && !r0.sq && (ch == ')' || ch == '}' || ch == ']') {
            assert(r0.stack.len() > 0);
            assert((p + r0.stack).last() == r0.stack.last());
            assert(q1.stack =~= p + r1.stack);
        } else {
            assert(q1.stack =~= p + r1.stack);
        }
        assert(q1.dq == r1.dq && q1.sq == r1.sq && q1.failed == r1.failed);
    }
}

/// A balanced text inside a pair of matching brackets is balanced.
pub proof fn law_balanced_wrap(s: Seq<char>, open: char)
    requires
        balanced(s),
        open == '(' || open == '{' || open == '[',
    ensures
        balanced(seq![open] + s + seq![if open == '(' {
            ')'
        } else if open == '{' {
            '}'
        } else {
            ']'
        }]),
{
    let close = if open == '(' {
        ')'
    } else if open == '{' {
        '}'
    } else {
        ']'
    };
    let o = seq![open];
    assert(o.drop_last() =~= Seq::<char>::empty());
    let st1 = scan_from(scan_init(), o);
    assert(o.last() == open);
    assert(scan_from(scan_init(), o.drop_last()) == scan_init());
    assert(st1 == scan_step(scan_init(), open));
    assert(st1.stack =~= seq![open]);
    assert(st1 == (Scan { stack: seq![open], ..scan_init() }));
    lemma_scan_concat(scan_init(), o, s);
    lemma_scan_prefix(seq![open], s);
    let st2 = scan_from(scan_init(), o + s);
    let r = scan_from(scan_init(), s);
    assert(r.stack =~= Seq::<char>::empty());
    assert(st2.stack =~= seq![open]);
    lemma_scan_concat(scan_init(), o + s, seq![close]);
    let c = seq![close];
    assert(c.drop_last() =~= Seq::<char>::empty());
    assert(opener_of(close) == open);
    assert(st2.stack.drop_last() =~= Seq::<char>::empty());
    assert(!st2.failed && !st2.dq && !st2.sq);
    assert(scan_from(st2, c.drop_last()) == st2);
    assert(c.last() == close);
    let st3 = scan_from(st2, c);
    assert(st3 == scan_step(st2, close));
    assert(st3.stack.len() == 0);
    assert(scan_from(scan_init(), o + s + c) == st3);
}

/* Argument lists. */

/// `s` without one pair of enclosing double quotes.
pub open spec fn unquote(t: Seq<char>) -> Seq<char> {
    if t.len() >= 2 && t[0] == '"' && t.last() == '"' {
        t.subrange(1, t.len() - 1)
    } else {
        t
    }
}

/// An argument as written, trimmed and without enclosing double quotes.
pub open spec fn clean_arg_spec(s: Seq<char>) -> Seq<char> {
    unquote(trim(s))
}

pub struct ArgScan {
    pub args: Seq<Seq<char>>,
    pub current: Seq<char>,
    pub in_quotes: bool,
    pub escape: bool,
}

pub open spec fn arg_scan_init() -> ArgScan {
    ArgScan { args: Seq::empty(), current: Seq::empty(), in_quotes: false, escape: false }
}

/// The argument to keep, if it is not empty once cleaned.
pub open spec fn keep(args: Seq<Seq<char>>, current: Seq<char>) -> Seq<Seq<char>> {
    if clean_arg_spec(current).len() > 0 {
        args.push(clean_arg_spec(current))
    } else {
        args
    }
}

/// One character of an argument list: commas outside double quotes separate
/// arguments; inside quotes a backslash keeps the next character as it is.
pub open spec fn arg_step(st: ArgScan, ch: char) -> ArgScan {
    if st.escape {
        ArgScan { current: st.current.push(ch), escape: false, ..st }
    } else if ch == '\\' && st.in_quotes {
        ArgScan { current: st.current.push(ch), escape: true, ..st }
    } else if ch == '"' {
        ArgScan { current: st.current.push(ch), in_quotes: !st.in_quotes, ..st }
    } else if ch == ',' && !st.in_quotes {
        ArgScan { args: keep(st.args, st.current), current: Seq::empty(), ..st }
    } else {
        ArgScan { current: st.current.push(ch), ..st }
    }
}

pub open spec fn arg_scan(s: Seq<char>) -> ArgScan
    decreases s.len(),
{
    if s.len() == 0 {
        arg_scan_init()
    } else {
        arg_step(arg_scan(s.drop_last()), s.last())
    }
}

/// The arguments of an argument list: split at commas outside double
/// quotes, each cleaned, empty ones dropped.
pub open spec fn parse_args_spec(s: Seq<char>) -> Seq<Seq<char>> {
    let st = arg_scan(s);
    keep(st.args, st.current)
}

/// `clean_arg`: trims, then removes one pair of enclosing double quotes.
pub fn clean_arg(arg: &Vec<char>) -> (r: Vec<char>)
    ensures
        r@ == clean_arg_spec(arg@),
{
    let t = trim_chars(arg);
    let n = t.len();
    if n >= 2 && t[0] == '"' && t[n - 1] == '"' {
        slice_chars(&t, 1, n - 1)
    } else {
        t
    }
}

fn push_kept(args: &mut Vec<Vec<char>>, current: &Vec<char>)
    ensures
        final(args)@.map_values(|v: Vec<char>| v@) == keep(
            old(args)@.map_values(|v: Vec<char>| v@),
            current@,
        ),
{
    let cleaned = clean_arg(current);
    if cleaned.len() > 0 {
        let ghost before = args@;
        args.push(cleaned);
        proof {
            lemma_map_push(before, cleaned, |v: Vec<char>| v@);
        }
    }
}

/// Splits an argument list (see `parse_args_spec`).
pub fn parse_args(args_text: &Vec<char>) -> (r: Vec<Vec<char>>)
    ensures
        r@.map_values(|v: Vec<char>| v@) == parse_args_spec(args_text@),
{
    let mut args: Vec<Vec<char>> = Vec::new();
    let mut current: Vec<char> = Vec::new();
    let mut in_quotes = false;
    let mut escape = false;
    let mut i: usize = 0;
    assert(args_text@.take(0) =~= Seq::<char>::empty());
    assert(args@.map_values(|v: Vec<char>| v@) =~= Seq::<Seq<char>>::empty());
    while i < args_text.len()
        invariant
            i <= args_text.len(),
            arg_scan(args_text@.take(i as int)) == (ArgScan {
                args: args@.map_values(|v: Vec<char>| v@),
                current: current@,
                in_quotes,
                escape,
            }),
        decreases args_text.len() - i,
    {
        let ch = args_text[i];
        proof {
            assert(args_text@.take(i + 1).drop_last() =~= args_text@.take(i as int));
            assert(args_text@.take(i + 1).last() == ch);
        }
        i = i + 1;
        if escape {
            current.push(ch);
            escape = false;
        } else if ch == '\\' && in_quotes {
            current.push(ch);
            escape = true;
        } else if ch == '"' {
            current.push(ch);
            in_quotes = !in_quotes;
        } else if ch == ',' && !in_quotes {
            push_kept(&mut args, &current);
            current = Vec::new();
        } else {
            current.push(ch);
        }
    }
    assert(args_text@.take(i as int) =~= args_text@);
    assert(arg_scan(args_text@).args == args@.map_values(|v: Vec<char>| v@));
    assert(arg_scan(args_text@).current == current@);
    push_kept(&mut args, &current);
    args
}

/// No argument that `parse_args` returns is empty.
pub proof fn law_args_nonempty(s: Seq<char>)
    ensures
        forall|i: int| 0 <= i < parse_args_spec(s).len() ==> (#[trigger] parse_args_spec(s)[i]).len() > 0,
{
    lemma_arg_scan_nonempty(s);
}

proof fn lemma_arg_scan_nonempty(s: Seq<char>)
    ensures
        forall|i: int| 0 <= i < arg_scan(s).args.len() ==> (#[trigger] arg_scan(s).args[i]).len() > 0,
    decreases s.len(),
{
    if s.len() > 0 {
        lemma_arg_scan_nonempty(s.drop_last());
        let st = arg_scan(s.drop_last());
        let st2 = arg_step(st, s.last());
        assert(st2 == arg_scan(s));
        assert(st2.args == st.args || st2.args == keep(st.args, st.current));
        assert forall|i: int| 0 <= i < st2.args.len() implies (#[trigger] st2.args[i]).len() > 0 by {
            if i < st.args.len() {
                assert(st2.args[i] == st.args[i]);
            }
        }
    }
}

/* The text between the first '(' and the last ')'. */

pub open spec fn first_index(s: Seq<char>, c: char) -> Option<int> {
    if s.contains(c) {
        Some(choose|i: int| 0 <= i < s.len() && s[i] == c && forall|j: int| 0 <= j < i ==> s[j] != c)
    } else {
        None
    }
}

pub open spec fn last_index(s: Seq<char>, c: char) -> Option<int> {
    if s.contains(c) {
        Some(choose|i: int| 0 <= i < s.len() && s[i] == c && forall|j: int| i < j < s.len() ==> s[j] != c)
    } else {
        None
    }
}

pub enum ArgsError {
    MissingOpen,
    MissingClose,
    Mismatched,
}

/// What `extract_args` gives: the text strictly between the first '(' and
/// the last ')', or why there is none.
pub open spec fn extract_args_spec(s: Seq<char>) -> Result<Seq<char>, ArgsError> {
    match first_index(s, '(') {
        None => Err(ArgsError::MissingOpen),
        Some(start) => match last_index(s, ')') {
            None => Err(ArgsError::MissingClose),
            Some(end) => if end <= start {
                Err(ArgsError::Mismatched)
            } else {
                Ok(s.subrange(start + 1, end))
            },
        },
    }
}

pub proof fn lemma_first_index(s: Seq<char>, c: char, i: int)
    requires
        0 <= i < s.len(),
        s[i] == c,
        forall|j: int| 0 <= j < i ==> s[j] != c,
    ensures
        first_index(s, c) == Some(i),
{
    assert(s.contains(c));
    let k = choose|k: int| 0 <= k < s.len() && s[k] == c && forall|j: int| 0 <= j < k ==> s[j] != c;
    if k < i {
        assert(s[k] != c);
    }
    if k > i {
        assert(s[i] != c);
    }
}

pub proof fn lemma_last_index(s: Seq<char>, c: char, i: int)
    requires
        0 <= i < s.len(),
        s[i] == c,
        forall|j: int| i < j < s.len() ==> s[j] != c,
    ensures
        last_index(s, c) == Some(i),
{
    assert(s.contains(c));
    let k = choose|k: int| 0 <= k < s.len() && s[k] == c && forall|j: int| k < j < s.len() ==> s[j] != c;
    if k < i {
        assert(s[i] != c);
    }
    if k > i {
        assert(s[k] != c);
    }
}

/// `extract_args`.
pub fn extract_args(s: &Vec<char>) -> (r: Result<Vec<char>, ArgsError>)
    ensures
        r matches Ok(a) ==> extract_args_spec(s@) == Ok::<Seq<char>, ArgsError>(a@),
        r matches Err(e) ==> extract_args_spec(s@) == Err::<Seq<char>, ArgsError>(e),
{
    let n = s.len();
    let mut start: usize = 0;
    while start < n && s[start] != '('
        invariant
            start <= n == s.len(),
            forall|j: int| 0 <= j < start ==> s@[j] != '(',
        decreases n - start,
    {
        start = start + 1;
    }
    if start == n {
        assert(!s@.contains('('));
        return Err(ArgsError::MissingOpen);
    }
    proof {
        lemma_first_index(s@, '(', start as int);
    }
    let mut end: usize = n;
    while end > 0 && s[end - 1] != ')'
        invariant
            end <= n == s.len(),
            forall|j: int| end <= j < n ==> s@[j] != ')',
        decreases end,
    {
        end = end - 1;
    }
    if end == 0 {
        assert(!s@.contains(')'));
        return Err(ArgsError::MissingClose);
    }
    let e = end - 1;
    proof {
        lemma_last_index(s@, ')', e as int);
    }
    if e <= start {
        return Err(ArgsError::Mismatched);
    }
    Ok(slice_chars(s, start + 1, e))
}

} // verus!
