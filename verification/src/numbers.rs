//! Decimal integers in text: rendering (`Display` of integers), parsing
//! (`str::parse::<i64>`) and recognising the syntax that `str::parse::<f64>`
//! accepts.

use vstd::prelude::*;
use crate::text::{chars_eq, lower_chars, lower_seq, slice_chars};

verus! {

pub open spec fn is_digit(c: char) -> bool {
    '0' <= c <= '9'
}

pub open spec fn digit_value(c: char) -> nat {
    ((c as u32) - ('0' as u32)) as nat
}

pub open spec fn digit_char(d: nat) -> char {
    (('0' as u32) + d) as char
}

pub open spec fn all_digits(s: Seq<char>) -> bool {
    forall|i: int| 0 <= i < s.len() ==> is_digit(#[trigger] s[i])
}

/// The value of a string of decimal digits.
pub open spec fn digits_value(s: Seq<char>) -> nat
    decreases s.len(),
{
    if s.len() == 0 {
        0
    } else {
        digits_value(s.drop_last()) * 10 + digit_value(s.last())
    }
}

/// The decimal text of a natural number, without leading zeros.
pub open spec fn nat_text(n: nat) -> Seq<char>
    decreases n,
{
    if n < 10 {
        seq![digit_char(n)]
    } else {
        nat_text(n / 10).push(digit_char(n % 10))
    }
}

/// The decimal text of an integer, as `Display` writes it.
pub open spec fn int_text(v: int) -> Seq<char> {
    if v < 0 {
        seq!['-'] + nat_text((-v) as nat)
    } else {
        nat_text(v as nat)
    }
}

/// `s` without one leading sign character.
pub open spec fn unsigned_part(s: Seq<char>) -> Seq<char> {
    if s.len() > 0 && (s[0] == '+' || s[0] == '-') {
        s.drop_first()
    } else {
        s
    }
}

pub open spec fn starts_negative(s: Seq<char>) -> bool {
    s.len() > 0 && s[0] == '-'
}

/// What `str::parse::<i64>` gives: an optional sign followed by at least one
/// ASCII digit and nothing else, whose value lies in the range of `i64`.
pub open spec fn parse_i64_spec(s: Seq<char>) -> Option<int> {
    let body = unsigned_part(s);
    if body.len() > 0 && all_digits(body) {
        let v: int = if starts_negative(s) {
            -(digits_value(body) as int)
        } else {
            digits_value(body) as int
        };
        if i64::MIN <= v <= i64::MAX {
            Some(v)
        } else {
            None
        }
    } else {
        None
    }
}

pub proof fn lemma_digits_value_prefix(s: Seq<char>, k: int)
    requires
        0 <= k <= s.len(),
    ensures
        digits_value(s.take(k)) <= digits_value(s),
    decreases s.len(),
{
    if k < s.len() {
        lemma_digits_value_prefix(s.drop_last(), k);
        assert(s.drop_last().take(k) =~= s.take(k));
    } else {
        assert(s.take(k) =~= s);
    }
}

pub proof fn lemma_digits_value_step(s: Seq<char>, i: int)
    requires
        0 <= i < s.len(),
    ensures
        digits_value(s.take(i + 1)) == digits_value(s.take(i)) * 10 + digit_value(s[i]),
{
    assert(s.take(i + 1).drop_last() =~= s.take(i));
}

/// `str::parse::<i64>` on a character vector.
pub fn parse_i64(s: &Vec<char>) -> (r: Option<i64>)
    ensures
        r matches Some(v) ==> parse_i64_spec(s@) == Some(v as int),
        r is None ==> parse_i64_spec(s@) is None,
{
    let n = s.len();
    if n == 0 {
        return None;
    }
    let neg = s[0] == '-';
    let start: usize = if s[0] == '-' || s[0] == '+' {
        1
    } else {
        0
    };
    let ghost body = unsigned_part(s@);
    assert(body == s@.skip(start as int));
    if start == n {
        return None;
    }
    let mut acc: u64 = 0;
    let mut i = start;
    while i < n
        invariant
            start <= i <= n == s.len(),
            body == s@.skip(start as int),
            body == unsigned_part(s@),
            0 < body.len(),
            acc as nat == digits_value(body.take(i - start)),
            acc <= 0x8000_0000_0000_0000u64,
            all_digits(body.take(i - start)),
        decreases n - i,
    {
        let c = s[i];
        if !('0' <= c && c <= '9') {
            proof {
                assert(body[i - start] == c);
                assert(!is_digit(body[i - start]));
            }
            return None;
        }
        let d = (c as u32 - '0' as u32) as u64;
        proof {
            lemma_digits_value_step(body, i - start);
            assert(body[i - start] == c);
        }
        if acc > (0x8000_0000_0000_0000u64 - d) / 10 {
            proof {
                assert(digits_value(body.take(i - start + 1)) > 0x8000_0000_0000_0000nat);
                lemma_digits_value_prefix(body, i - start + 1);
                if all_digits(body) {
                }
            }
            return None;
        }
        acc = acc * 10 + d;
        i = i + 1;
        proof {
            assert forall|j: int| 0 <= j < i - start implies is_digit(
                #[trigger] body.take(i - start)[j],
            ) by {
                if j < i - start - 1 {
                    assert(body.take(i - start)[j] == body.take(i - start - 1)[j]);
                }
            }
        }
    }
    assert(body.take(n - start) =~= body);
    if neg {
        if acc == 0x8000_0000_0000_0000u64 {
            Some(i64::MIN)
        } else {
            Some(-(acc as i64))
        }
    } else {
        if acc > 0x7fff_ffff_ffff_ffffu64 {
            None
        } else {
            Some(acc as i64)
        }
    }
}

/// Appends the decimal text of `n`.
pub fn push_nat_text(out: &mut Vec<char>, n: u64)
    ensures
        final(out)@ == old(out)@ + nat_text(n as nat),
    decreases n,
{
    if n >= 10 {
        push_nat_text(out, n / 10);
    }
    let d = (n % 10) as u32;
    let c = char_of_digit(d);
    out.push(c);
    proof {
        if n >= 10 {
            assert(nat_text(n as nat) == nat_text((n / 10) as nat).push(digit_char((n % 10) as nat)));
        }
    }
    assert(final(out)@ =~= old(out)@ + nat_text(n as nat)) by {
        if n >= 10 {
        }
    }
}

fn char_of_digit(d: u32) -> (c: char)
    requires
        d < 10,
    ensures
        c == digit_char(d as nat),
{
    let b = (d as u8) + 48;
    b as char
}

/// The decimal text of `v` (`format!("{}", v)` for an `i64`).
pub fn i64_text(v: i64) -> (r: Vec<char>)
    ensures
        r@ == int_text(v as int),
{
    let mut out: Vec<char> = Vec::new();
    if v < 0 {
        out.push('-');
        let m: u64 = if v == i64::MIN {
            0x8000_0000_0000_0000u64
        } else {
            (-v) as u64
        };
        push_nat_text(&mut out, m);
    } else {
        push_nat_text(&mut out, v as u64);
    }
    out
}

/// The decimal text of `n` (`format!("{}", n)` for a `u64`).
pub fn u64_text(n: u64) -> (r: Vec<char>)
    ensures
        r@ == nat_text(n as nat),
{
    let mut out: Vec<char> = Vec::new();
    push_nat_text(&mut out, n);
    out
}

pub proof fn lemma_nat_text_digits(n: nat)
    ensures
        nat_text(n).len() > 0,
        all_digits(nat_text(n)),
        digits_value(nat_text(n)) == n,
    decreases n,
{
    if n >= 10 {
        lemma_nat_text_digits(n / 10);
        let t = nat_text(n / 10);
        assert(nat_text(n).drop_last() =~= t);
        assert(digit_value(digit_char(n % 10)) == n % 10);
        assert(nat_text(n).last() == digit_char(n % 10));
        assert(digits_value(nat_text(n)) == digits_value(t) * 10 + digit_value(nat_text(n).last()));
        assert((n / 10) * 10 + n % 10 == n);
        assert forall|i: int| 0 <= i < nat_text(n).len() implies is_digit(#[trigger] nat_text(n)[i]) by {
            if i < t.len() {
                assert(nat_text(n)[i] == t[i]);
            }
        }
    } else {
        assert(nat_text(n).drop_last() =~= Seq::<char>::empty());
        assert(digit_value(digit_char(n)) == n);
        assert(nat_text(n).last() == digit_char(n));
        assert(digits_value(nat_text(n)) == digits_value(Seq::<char>::empty()) * 10 + digit_value(nat_text(n).last()));
    }
}

/// Decimal text parses back: `parse::<i64>` of `v.to_string()` is `v`.
/// The text of an integer is an optional '-' and then digits.
pub proof fn lemma_int_text_shape(v: i64)
    ensures
        int_text(v as int).len() > 0,
        is_digit(int_text(v as int).last()),
        int_text(v as int)[0] == '-' || is_digit(int_text(v as int)[0]),
{
    if v < 0 {
        lemma_nat_text_digits((-v) as nat);
        let n = nat_text((-v) as nat);
        assert((seq!['-'] + n).last() == n[n.len() - 1]);
    } else {
        lemma_nat_text_digits(v as nat);
        let n = nat_text(v as nat);
        assert(is_digit(n[0]));
        assert(is_digit(n[n.len() - 1]));
    }
}

pub proof fn lemma_parse_int_text(v: i64)
    ensures
        parse_i64_spec(int_text(v as int)) == Some(v as int),
{
    let t = int_text(v as int);
    if v < 0 {
        lemma_nat_text_digits((-v) as nat);
        assert(unsigned_part(t) =~= nat_text((-v) as nat));
    } else {
        lemma_nat_text_digits(v as nat);
        let d = nat_text(v as nat);
        assert(is_digit(d[0]));
        assert(unsigned_part(t) =~= d);
    }
}

/* The syntax accepted by `str::parse::<f64>` (documented in `f64::from_str`):
   Sign? ( 'inf' | 'infinity' | 'nan' | Number ), case-insensitively, where
   Number ::= ( Digit+ | Digit+ '.' Digit* | Digit* '.' Digit+ ) Exp?
   Exp    ::= 'e' Sign? Digit+ */

pub open spec fn is_exp_marker(c: char) -> bool {
    c == 'e' || c == 'E'
}

/// Digits with at most one '.', and at least one digit.
pub open spec fn mantissa_ok(m: Seq<char>) -> bool {
    &&& forall|i: int| 0 <= i < m.len() ==> is_digit(#[trigger] m[i]) || m[i] == '.'
    &&& forall|i: int, j: int| 0 <= i < j < m.len() && #[trigger] m[i] == '.' ==> #[trigger] m[j] != '.'
    &&& exists|i: int| 0 <= i < m.len() && is_digit(#[trigger] m[i])
}

/// An optional sign followed by at least one digit.
pub open spec fn exponent_ok(x: Seq<char>) -> bool {
    let d = unsigned_part(x);
    d.len() > 0 && all_digits(d)
}

pub open spec fn decimal_number(b: Seq<char>) -> bool {
    ||| (forall|i: int| 0 <= i < b.len() ==> !is_exp_marker(#[trigger] b[i])) && mantissa_ok(b)
    ||| exists|k: int|
        0 <= k < b.len() && is_exp_marker(#[trigger] b[k]) && mantissa_ok(b.take(k))
            && exponent_ok(b.skip(k + 1))
}

pub open spec fn float_word(b: Seq<char>) -> bool {
    let l = lower_seq(b);
    ||| l == seq!['i', 'n', 'f']
    ||| l == seq!['i', 'n', 'f', 'i', 'n', 'i', 't', 'y']
    ||| l == seq!['n', 'a', 'n']
}

/// Whether `str::parse::<f64>` accepts `s`.
pub open spec fn float_literal(s: Seq<char>) -> bool {
    let b = unsigned_part(s);
    float_word(b) || decimal_number(b)
}

fn is_float_word(b: &Vec<char>) -> (r: bool)
    ensures
        r == float_word(b@),
{
    let l = lower_chars(b);
    let inf = vec!['i', 'n', 'f'];
    let infinity = vec!['i', 'n', 'f', 'i', 'n', 'i', 't', 'y'];
    let nan = vec!['n', 'a', 'n'];
    assert(inf@ == seq!['i', 'n', 'f']);
    assert(infinity@ == seq!['i', 'n', 'f', 'i', 'n', 'i', 't', 'y']);
    assert(nan@ == seq!['n', 'a', 'n']);
    chars_eq(&l, &inf) || chars_eq(&l, &infinity) || chars_eq(&l, &nan)
}

/// Checks `s[lo..hi]` against `mantissa_ok`.
fn check_mantissa(s: &Vec<char>, lo: usize, hi: usize) -> (r: bool)
    requires
        lo <= hi <= s.len(),
    ensures
        r == mantissa_ok(s@.subrange(lo as int, hi as int)),
{
    let ghost m = s@.subrange(lo as int, hi as int);
    let mut dot = false;
    let mut digit = false;
    let mut i = lo;
    while i < hi
        invariant
            lo <= i <= hi <= s.len(),
            m == s@.subrange(lo as int, hi as int),
            forall|j: int| 0 <= j < i - lo ==> is_digit(#[trigger] m[j]) || m[j] == '.',
            forall|a: int, b: int| 0 <= a < b < i - lo && #[trigger] m[a] == '.' ==> #[trigger] m[b] != '.',
            dot == (exists|j: int| 0 <= j < i - lo && #[trigger] m[j] == '.'),
            digit == (exists|j: int| 0 <= j < i - lo && is_digit(#[trigger] m[j])),
        decreases hi - i,
    {
        let c = s[i];
        assert(m[i - lo] == c);
        if '0' <= c && c <= '9' {
            digit = true;
        } else if c == '.' {
            if dot {
                return false;
            }
            dot = true;
        } else {
            return false;
        }
        i = i + 1;
    }
    digit
}

/// Whether `str::parse::<f64>` accepts `s`.
pub fn is_float_literal(s: &Vec<char>) -> (r: bool)
    ensures
        r == float_literal(s@),
{
    let n = s.len();
    let start: usize = if n > 0 && (s[0] == '+' || s[0] == '-') {
        1
    } else {
        0
    };
    let ghost b = unsigned_part(s@);
    assert(b =~= s@.subrange(start as int, n as int));
    let body = slice_chars(s, start, n);
    if is_float_word(&body) {
        return true;
    }
    // the first exponent marker
    let mut k = start;
    while k < n && !(s[k] == 'e' || s[k] == 'E')
        invariant
            start <= k <= n == s.len(),
            b == s@.subrange(start as int, n as int),
            forall|j: int| 0 <= j < k - start ==> !is_exp_marker(#[trigger] b[j]),
        decreases n - k,
    {
        assert(b[k - start] == s@[k as int]);
        k = k + 1;
    }
    let ghost kk = k - start;
    if k == n {
        let r = check_mantissa(s, start, n);
        proof {
            assert(b.take(b.len() as int) =~= b);
            if !r {
                assert forall|q: int|
                    0 <= q < b.len() && is_exp_marker(#[trigger] b[q]) implies !(mantissa_ok(
                    b.take(q),
                ) && exponent_ok(b.skip(q + 1))) by {}
            }
        }
        return r;
    }
    assert(b[kk] == s@[k as int]);
    assert(b.take(kk) =~= s@.subrange(start as int, k as int));
    let m_ok = check_mantissa(s, start, k);
    // exponent
    let mut e = k + 1;
    if e < n && (s[e] == '+' || s[e] == '-') {
        e = e + 1;
    }
    let ghost x = b.skip(kk + 1);
    assert(x =~= s@.subrange(k + 1, n as int));
    assert(unsigned_part(x) =~= s@.subrange(e as int, n as int));
    let mut all = e < n;
    let mut i = e;
    while i < n
        invariant
            e <= i <= n == s.len(),
            all == (e < n && forall|j: int| e <= j < i ==> is_digit(#[trigger] s@[j])),
        decreases n - i,
    {
        if !('0' <= s[i] && s[i] <= '9') {
            all = false;
        }
        i = i + 1;
    }
    proof {
        let d = unsigned_part(x);
        if all {
            assert forall|j: int| 0 <= j < d.len() implies is_digit(#[trigger] d[j]) by {
                assert(d[j] == s@[e + j]);
            }
        } else if e < n {
            let w = choose|j: int| e <= j < n && !is_digit(#[trigger] s@[j]);
            assert(d[w - e] == s@[w]);
        }
        assert(exponent_ok(x) == all);
        if m_ok && all {
            assert(is_exp_marker(b[kk]));
        } else {
            assert forall|q: int|
                0 <= q < b.len() && is_exp_marker(#[trigger] b[q]) implies !(mantissa_ok(b.take(q))
                && exponent_ok(b.skip(q + 1))) by {
                if q > kk && mantissa_ok(b.take(q)) {
                    assert(b.take(q)[kk] == b[kk]);
                }
            }
            assert(!(forall|i: int| 0 <= i < b.len() ==> !is_exp_marker(#[trigger] b[i])));
        }
    }
    m_ok && all
}

} // verus!
