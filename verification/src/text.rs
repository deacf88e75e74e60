//! Character-level helpers shared by the whole crate: whitespace, trimming,
//! ASCII case folding and conversions between `str`/`String` and `Vec<char>`.

use vstd::prelude::*;

verus! {

/// The Unicode `White_Space` property, which `char::is_whitespace`,
/// `str::trim` and the regex class `\s` all use.
pub open spec fn is_space(c: char) -> bool {
    let u = c as u32;
    ||| 0x09 <= u <= 0x0d
    ||| u == 0x20
    ||| u == 0x85
    ||| u == 0xa0
    ||| u == 0x1680
    ||| 0x2000 <= u <= 0x200a
    ||| u == 0x2028
    ||| u == 0x2029
    ||| u == 0x202f
    ||| u == 0x205f
    ||| u == 0x3000
}

/// `char::is_whitespace`.
pub fn is_whitespace(c: char) -> (r: bool)
    ensures
        r == is_space(c),
{
    let u = c as u32;
    (0x09 <= u && u <= 0x0d) || u == 0x20 || u == 0x85 || u == 0xa0 || u == 0x1680 || (0x2000
        <= u && u <= 0x200a) || u == 0x2028 || u == 0x2029 || u == 0x202f || u == 0x205f || u
        == 0x3000
}

/// Number of white-space characters at the front of `s`.
pub open spec fn leading_spaces(s: Seq<char>) -> nat
    decreases s.len(),
{
    if s.len() > 0 && is_space(s[0]) {
        1 + leading_spaces(s.drop_first())
    } else {
        0
    }
}

/// Number of white-space characters at the end of `s`.
pub open spec fn trailing_spaces(s: Seq<char>) -> nat
    decreases s.len(),
{
    if s.len() > 0 && is_space(s.last()) {
        1 + trailing_spaces(s.drop_last())
    } else {
        0
    }
}

/// `s` without leading white space (`str::trim_start`).
pub open spec fn trim_start(s: Seq<char>) -> Seq<char> {
    s.skip(leading_spaces(s) as int)
}

/// `s` without trailing white space (`str::trim_end`).
pub open spec fn trim_end(s: Seq<char>) -> Seq<char> {
    s.take(s.len() - trailing_spaces(s))
}

/// `s` without leading and trailing white space (`str::trim`).
pub open spec fn trim(s: Seq<char>) -> Seq<char> {
    trim_end(trim_start(s))
}

pub proof fn lemma_leading_spaces_bound(s: Seq<char>)
    ensures
        leading_spaces(s) <= s.len(),
        forall|i: int| 0 <= i < leading_spaces(s) ==> is_space(#[trigger] s[i]),
        leading_spaces(s) < s.len() ==> !is_space(s[leading_spaces(s) as int]),
    decreases s.len(),
{
    if s.len() > 0 && is_space(s[0]) {
        lemma_leading_spaces_bound(s.drop_first());
        assert forall|i: int| 0 <= i < leading_spaces(s) implies is_space(#[trigger] s[i]) by {
            if i > 0 {
                assert(s[i] == s.drop_first()[i - 1]);
            }
        }
    }
}

pub proof fn lemma_trailing_spaces_bound(s: Seq<char>)
    ensures
        trailing_spaces(s) <= s.len(),
        forall|i: int|
            s.len() - trailing_spaces(s) <= i < s.len() ==> is_space(#[trigger] s[i]),
        trailing_spaces(s) < s.len() ==> !is_space(s[s.len() - trailing_spaces(s) - 1]),
    decreases s.len(),
{
    if s.len() > 0 && is_space(s.last()) {
        lemma_trailing_spaces_bound(s.drop_last());
        assert forall|i: int|
            s.len() - trailing_spaces(s) <= i < s.len() implies is_space(#[trigger] s[i]) by {
            if i < s.len() - 1 {
                assert(s[i] == s.drop_last()[i]);
            }
        }
    }
}

/// Characterises `leading_spaces` by the first non-space position.
pub proof fn lemma_leading_spaces_is(s: Seq<char>, k: int)
    requires
        0 <= k <= s.len(),
        forall|i: int| 0 <= i < k ==> is_space(#[trigger] s[i]),
        k < s.len() ==> !is_space(s[k]),
    ensures
        leading_spaces(s) == k,
    decreases s.len(),
{
    if k > 0 {
        assert(is_space(s[0]));
        assert forall|i: int| 0 <= i < k - 1 implies is_space(#[trigger] s.drop_first()[i]) by {
            assert(s.drop_first()[i] == s[i + 1]);
        }
        lemma_leading_spaces_is(s.drop_first(), k - 1);
    }
}

/// Characterises `trailing_spaces` by the last non-space position.
pub proof fn lemma_trailing_spaces_is(s: Seq<char>, k: int)
    requires
        0 <= k <= s.len(),
        forall|i: int| s.len() - k <= i < s.len() ==> is_space(#[trigger] s[i]),
        k < s.len() ==> !is_space(s[s.len() - k - 1]),
    ensures
        trailing_spaces(s) == k,
    decreases s.len(),
{
    if k > 0 {
        assert(is_space(s[s.len() - 1]));
        let t = s.drop_last();
        assert forall|i: int| t.len() - (k - 1) <= i < t.len() implies is_space(#[trigger] t[i]) by {
            assert(t[i] == s[i]);
        }
        if k - 1 < t.len() {
            assert(t[t.len() - (k - 1) - 1] == s[s.len() - k - 1]);
        }
        lemma_trailing_spaces_is(t, k - 1);
    }
}

/// Trimming twice trims no more than trimming once.
pub proof fn lemma_trim_idempotent(s: Seq<char>)
    ensures
        trim(trim(s)) == trim(s),
        trim(s).len() <= s.len(),
{
    let u = trim_start(s);
    let t = trim(s);
    lemma_leading_spaces_bound(s);
    lemma_trailing_spaces_bound(u);
    if t.len() > 0 {
        assert(t[0] == u[0]);
        assert(t[t.len() - 1] == u[u.len() - trailing_spaces(u) - 1]);
    }
    lemma_leading_spaces_is(t, 0);
    lemma_trailing_spaces_is(t, 0);
    assert(t.skip(0) =~= t);
    assert(t.take(t.len() as int) =~= t);
}

/// The bounds `(lo, hi)` of `trim(s)` inside `s`.
pub fn trim_bounds(s: &Vec<char>) -> (r: (usize, usize))
    ensures
        r.0 <= r.1 <= s.len(),
        s@.subrange(r.0 as int, r.1 as int) == trim(s@),
{
    let n = s.len();
    let mut lo: usize = 0;
    while lo < n && is_whitespace(s[lo])
        invariant
            lo <= n == s.len(),
            forall|i: int| 0 <= i < lo ==> is_space(#[trigger] s@[i]),
        decreases n - lo,
    {
        lo = lo + 1;
    }
    proof {
        lemma_leading_spaces_is(s@, lo as int);
    }
    let mut hi: usize = n;
    while hi > lo && is_whitespace(s[hi - 1])
        invariant
            lo <= hi <= n == s.len(),
            forall|i: int| hi <= i < n ==> is_space(#[trigger] s@[i]),
        decreases hi,
    {
        hi = hi - 1;
    }
    proof {
        let t = trim_start(s@);
        assert(t == s@.subrange(lo as int, n as int));
        assert forall|i: int| t.len() - (n - hi) <= i < t.len() implies is_space(#[trigger] t[i]) by {
            assert(t[i] == s@[lo + i]);
        }
        if n - hi < t.len() {
            assert(t[t.len() - (n - hi) - 1] == s@[hi - 1]);
        }
        lemma_trailing_spaces_is(t, (n - hi) as int);
        assert(trim(s@) =~= s@.subrange(lo as int, hi as int));
    }
    (lo, hi)
}

/// A copy of `s[lo..hi]`.
pub fn slice_chars(s: &Vec<char>, lo: usize, hi: usize) -> (r: Vec<char>)
    requires
        lo <= hi <= s.len(),
    ensures
        r@ == s@.subrange(lo as int, hi as int),
{
    let mut r: Vec<char> = Vec::new();
    let mut i = lo;
    while i < hi
        invariant
            lo <= i <= hi <= s.len(),
            r@ == s@.subrange(lo as int, i as int),
        decreases hi - i,
    {
        r.push(s[i]);
        i = i + 1;
        assert(r@ =~= s@.subrange(lo as int, i as int));
    }
    r
}

/// `str::trim` on a character vector.
pub fn trim_chars(s: &Vec<char>) -> (r: Vec<char>)
    ensures
        r@ == trim(s@),
{
    let (lo, hi) = trim_bounds(s);
    slice_chars(s, lo, hi)
}

/// ASCII lower-casing of one character (`char::to_ascii_lowercase`).
pub open spec fn lower(c: char) -> char {
    if 'A' <= c <= 'Z' {
        ((c as u32) + 32) as char
    } else {
        c
    }
}

/// ASCII lower-casing of a sequence (`str::to_ascii_lowercase`).
pub open spec fn lower_seq(s: Seq<char>) -> Seq<char> {
    s.map_values(|c: char| lower(c))
}

pub fn to_ascii_lower(c: char) -> (r: char)
    ensures
        r == lower(c),
{
    if 'A' <= c && c <= 'Z' {
        let u = (c as u8) + 32;
        u as char
    } else {
        c
    }
}

/// `str::to_ascii_lowercase` on a character vector.
pub fn lower_chars(s: &Vec<char>) -> (r: Vec<char>)
    ensures
        r@ == lower_seq(s@),
{
    let mut r: Vec<char> = Vec::new();
    let mut i: usize = 0;
    while i < s.len()
        invariant
            i <= s.len(),
            r@ == lower_seq(s@.take(i as int)),
        decreases s.len() - i,
    {
        r.push(to_ascii_lower(s[i]));
        i = i + 1;
        assert(lower_seq(s@.take(i as int)) =~= lower_seq(s@.take((i - 1) as int)).push(
            lower(s@[i - 1]),
        ));
    }
    assert(s@.take(i as int) =~= s@);
    r
}

/// Character-wise equality of two vectors.
pub fn chars_eq(a: &Vec<char>, b: &Vec<char>) -> (r: bool)
    ensures
        r == (a@ == b@),
{
    if a.len() != b.len() {
        return false;
    }
    let mut i: usize = 0;
    while i < a.len()
        invariant
            i <= a.len() == b.len(),
            forall|j: int| 0 <= j < i ==> a@[j] == b@[j],
        decreases a.len() - i,
    {
        if a[i] != b[i] {
            return false;
        }
        i = i + 1;
    }
    assert(a@ =~= b@);
    true
}

/// `str::eq_ignore_ascii_case`.
pub fn eq_ignore_ascii_case(a: &Vec<char>, b: &Vec<char>) -> (r: bool)
    ensures
        r == (lower_seq(a@) == lower_seq(b@)),
{
    let la = lower_chars(a);
    let lb = lower_chars(b);
    chars_eq(&la, &lb)
}

/// Whether `c` occurs in `s`.
pub fn contains_char(s: &Vec<char>, c: char) -> (r: bool)
    ensures
        r == s@.contains(c),
{
    let mut i: usize = 0;
    while i < s.len()
        invariant
            i <= s.len(),
            forall|j: int| 0 <= j < i ==> s@[j] != c,
        decreases s.len() - i,
    {
        if s[i] == c {
            return true;
        }
        i = i + 1;
    }
    false
}

/// The characters of `s`, in order.
pub fn chars_of(s: &str) -> (r: Vec<char>)
    ensures
        r@ == s@,
{
    let mut r: Vec<char> = Vec::new();
    for c in it: s.chars()
        invariant
            it.seq() == s@,
            r@ == s@.take(it.index() as int),
    {
        r.push(c);
    }
    r
}

/// The string made of the characters of `v` (`String: FromIterator<char>`).
#[verifier::external_body]
pub(crate) fn string_of(v: &Vec<char>) -> (r: String)
    ensures
        r@ == v@,
{
    v.iter().collect()
}

pub proof fn lemma_map_push<A, B>(s: Seq<A>, x: A, f: spec_fn(A) -> B)
    ensures
        s.push(x).map_values(f) == s.map_values(f).push(f(x)),
{
    assert(s.push(x).map_values(f) =~= s.map_values(f).push(f(x)));
}

/// `v` followed by `w`.
pub fn append_chars(v: &mut Vec<char>, w: &Vec<char>)
    ensures
        final(v)@ == old(v)@ + w@,
{
    let mut i: usize = 0;
    let ghost v0 = v@;
    while i < w.len()
        invariant
            i <= w.len(),
            v@ == v0 + w@.take(i as int),
        decreases w.len() - i,
    {
        v.push(w[i]);
        i = i + 1;
        assert(v@ =~= v0 + w@.take(i as int));
    }
    assert(w@.take(i as int) =~= w@);
}

/// The pieces of `s` between occurrences of `c` (`str::split` with a
/// character pattern); there is always at least one piece.
pub open spec fn split_char(s: Seq<char>, c: char) -> Seq<Seq<char>>
    decreases s.len(),
{
    if s.len() == 0 {
        seq![Seq::<char>::empty()]
    } else {
        let r = split_char(s.drop_last(), c);
        if s.last() == c {
            r.push(Seq::<char>::empty())
        } else {
            r.update(r.len() - 1, r.last().push(s.last()))
        }
    }
}

pub proof fn lemma_split_char_nonempty(s: Seq<char>, c: char)
    ensures
        split_char(s, c).len() >= 1,
    decreases s.len(),
{
    if s.len() > 0 {
        lemma_split_char_nonempty(s.drop_last(), c);
    }
}

/// `parts` joined with `sep` between consecutive parts (`slice::join`).
pub open spec fn join_with(parts: Seq<Seq<char>>, sep: Seq<char>) -> Seq<char>
    decreases parts.len(),
{
    if parts.len() == 0 {
        Seq::<char>::empty()
    } else if parts.len() == 1 {
        parts[0]
    } else {
        join_with(parts.drop_last(), sep) + sep + parts.last()
    }
}

/// Appending characters other than `c` extends the last piece.
pub proof fn lemma_split_char_extend(x: Seq<char>, y: Seq<char>, c: char)
    requires
        !y.contains(c),
    ensures
        split_char(x + y, c) == split_char(x, c).update(
            split_char(x, c).len() - 1,
            split_char(x, c).last() + y,
        ),
    decreases y.len(),
{
    lemma_split_char_nonempty(x, c);
    if y.len() == 0 {
        assert(x + y =~= x);
        assert(split_char(x, c).last() + y =~= split_char(x, c).last());
        assert(split_char(x, c).update(split_char(x, c).len() - 1, split_char(x, c).last())
            =~= split_char(x, c));
    } else {
        let y0 = y.drop_last();
        assert(!y0.contains(c)) by {
            if y0.contains(c) {
                let j = choose|j: int| 0 <= j < y0.len() && y0[j] == c;
                assert(y[j] == c);
            }
        }
        lemma_split_char_extend(x, y0, c);
        assert((x + y).drop_last() =~= x + y0);
        assert((x + y).last() == y.last());
        assert(y.last() != c) by {
            assert(y[y.len() - 1] == y.last());
        }
        let r0 = split_char(x, c);
        assert(split_char(x + y, c) =~= r0.update(r0.len() - 1, r0.last() + y)) by {
            assert(r0.last() + y0 + seq![y.last()] =~= r0.last() + y);
            assert((r0.last() + y0).push(y.last()) =~= r0.last() + y);
        }
    }
}

/// Splitting the join of pieces that do not contain the separator gives
/// the pieces back.
pub proof fn lemma_split_join(parts: Seq<Seq<char>>, c: char)
    requires
        parts.len() >= 1,
        forall|i: int| 0 <= i < parts.len() ==> !(#[trigger] parts[i]).contains(c),
    ensures
        split_char(join_with(parts, seq![c]), c) == parts,
    decreases parts.len(),
{
    if parts.len() == 1 {
        lemma_split_char_extend(Seq::<char>::empty(), parts[0], c);
        assert(Seq::<char>::empty() + parts[0] =~= parts[0]);
        assert(split_char(Seq::<char>::empty(), c) =~= seq![Seq::<char>::empty()]);
        assert(Seq::<char>::empty() + parts[0] =~= parts[0]);
        assert(seq![Seq::<char>::empty()].update(0, Seq::<char>::empty() + parts[0]) =~= parts);
    } else {
        let init = parts.drop_last();
        assert forall|i: int| 0 <= i < init.len() implies !(#[trigger] init[i]).contains(c) by {
            assert(init[i] == parts[i]);
        }
        lemma_split_join(init, c);
        let j = join_with(init, seq![c]);
        let x = j + seq![c];
        assert(x.drop_last() =~= j);
        assert(split_char(x, c) == parts.drop_last().push(Seq::<char>::empty()));
        assert(!parts.last().contains(c)) by {
            assert(parts.last() == parts[parts.len() - 1]);
        }
        lemma_split_char_extend(x, parts.last(), c);
        assert(join_with(parts, seq![c]) == x + parts.last());
        assert(Seq::<char>::empty() + parts.last() =~= parts.last());
        assert(init.push(Seq::<char>::empty()).update(init.len() as int, Seq::<char>::empty() + parts.last()) =~= parts);
    }
}

proof fn lemma_join_extend_last(p: Seq<Seq<char>>, sep: Seq<char>, x: char)
    requires
        p.len() >= 1,
    ensures
        join_with(p.update(p.len() - 1, p.last().push(x)), sep) == join_with(p, sep).push(x),
{
    let q = p.update(p.len() - 1, p.last().push(x));
    if p.len() > 1 {
        assert(q.drop_last() =~= p.drop_last());
        assert(q.last() == p.last().push(x));
        assert(join_with(p.drop_last(), sep) + sep + p.last().push(x) =~= (join_with(p.drop_last(), sep) + sep + p.last()).push(x));
    }
}

/// Joining the pieces of a split with the separator gives the text back.
pub proof fn lemma_join_split(s: Seq<char>, c: char)
    ensures
        join_with(split_char(s, c), seq![c]) == s,
    decreases s.len(),
{
    if s.len() == 0 {
        assert(join_with(seq![Seq::<char>::empty()], seq![c]) == Seq::<char>::empty());
    } else {
        let init = s.drop_last();
        let r = split_char(init, c);
        lemma_join_split(init, c);
        lemma_split_char_nonempty(init, c);
        if s.last() == c {
            let q = r.push(Seq::<char>::empty());
            assert(q.drop_last() =~= r);
            assert(join_with(r, seq![c]) + seq![c] + Seq::<char>::empty() =~= s);
        } else {
            lemma_join_extend_last(r, seq![c], s.last());
            assert(init.push(s.last()) =~= s);
        }
    }
}

/// `str::split(c)`, each piece collected into its own vector.
pub fn split_on(s: &Vec<char>, c: char) -> (r: Vec<Vec<char>>)
    ensures
        r@.map_values(|v: Vec<char>| v@) == split_char(s@, c),
{
    let mut r: Vec<Vec<char>> = Vec::new();
    let mut cur: Vec<char> = Vec::new();
    let mut i: usize = 0;
    assert(s@.take(0) =~= Seq::<char>::empty());
    while i < s.len()
        invariant
            i <= s.len(),
            r@.map_values(|v: Vec<char>| v@).push(cur@) == split_char(s@.take(i as int), c),
        decreases s.len() - i,
    {
        let ghost before = r@.map_values(|v: Vec<char>| v@).push(cur@);
        proof {
            lemma_split_char_nonempty(s@.take(i as int), c);
            assert(s@.take(i + 1).drop_last() =~= s@.take(i as int));
            assert(s@.take(i + 1).last() == s@[i as int]);
        }
        if s[i] == c {
            let done = cur;
            r.push(done);
            cur = Vec::new();
            proof {
                assert(r@.map_values(|v: Vec<char>| v@).push(cur@) =~= before.push(
                    Seq::<char>::empty(),
                ));
            }
        } else {
            cur.push(s[i]);
            proof {
                assert(r@.map_values(|v: Vec<char>| v@).push(cur@) =~= before.update(
                    before.len() - 1,
                    before.last().push(s@[i as int]),
                ));
            }
        }
        i = i + 1;
    }
    assert(s@.take(i as int) =~= s@);
    let ghost before = r@.map_values(|v: Vec<char>| v@).push(cur@);
    r.push(cur);
    assert(r@.map_values(|v: Vec<char>| v@) =~= before);
    r
}

/// `slice::join` of character vectors with the separator `sep`.
pub fn join_chars(parts: &Vec<Vec<char>>, sep: &Vec<char>) -> (r: Vec<char>)
    ensures
        r@ == join_with(parts@.map_values(|v: Vec<char>| v@), sep@),
{
    let ghost ps = parts@.map_values(|v: Vec<char>| v@);
    let mut r: Vec<char> = Vec::new();
    let mut i: usize = 0;
    while i < parts.len()
        invariant
            i <= parts.len(),
            ps == parts@.map_values(|v: Vec<char>| v@),
            r@ == join_with(ps.take(i as int), sep@),
        decreases parts.len() - i,
    {
        proof {
            assert(ps.take(i + 1).drop_last() =~= ps.take(i as int));
            assert(ps.take(i + 1).last() == parts@[i as int]@);
        }
        if i > 0 {
            append_chars(&mut r, sep);
        } else {
            assert(ps.take(1) =~= seq![parts@[0]@]);
        }
        append_chars(&mut r, &parts[i]);
        i = i + 1;
    }
    assert(ps.take(i as int) =~= ps);
    r
}

/// Whether `d` occurs in `s` at position `i`.
pub open spec fn occurs_at(s: Seq<char>, d: Seq<char>, i: int) -> bool {
    0 <= i && i + d.len() <= s.len() && s.subrange(i, i + d.len()) == d
}

/// The first position at or after `i` where `d` occurs in `s`.
pub open spec fn find_from(s: Seq<char>, d: Seq<char>, i: int) -> Option<int>
    decreases s.len() + 1 - i,
{
    if i < 0 || i + d.len() > s.len() {
        None
    } else if occurs_at(s, d, i) {
        Some(i)
    } else {
        find_from(s, d, i + 1)
    }
}

pub proof fn lemma_find_from(s: Seq<char>, d: Seq<char>, i: int)
    requires
        0 <= i,
    ensures
        find_from(s, d, i) matches Some(j) ==> i <= j && occurs_at(s, d, j) && forall|k: int|
            i <= k < j ==> !occurs_at(s, d, k),
        find_from(s, d, i) is None ==> forall|k: int| i <= k ==> !occurs_at(s, d, k),
    decreases s.len() + 1 - i,
{
    if i < 0 || i + d.len() > s.len() {
    } else if occurs_at(s, d, i) {
    } else {
        lemma_find_from(s, d, i + 1);
    }
}

/// The pieces of `s[pos..]` between the successive leftmost occurrences of
/// the non-empty separator `d`.
pub open spec fn split_from(s: Seq<char>, d: Seq<char>, pos: int) -> Seq<Seq<char>>
    decreases s.len() - pos,
{
    if d.len() == 0 || pos < 0 || pos > s.len() {
        seq![s.skip(pos)]
    } else {
        match find_from(s, d, pos) {
            Some(i) => if pos <= i && i + d.len() <= s.len() {
                seq![s.subrange(pos, i)] + split_from(s, d, i + d.len())
            } else {
                seq![s.skip(pos)]
            },
            None => seq![s.skip(pos)],
        }
    }
}

/// `str::split` with a string pattern: an empty pattern matches between
/// every two characters and at both ends.
pub open spec fn split_str(s: Seq<char>, d: Seq<char>) -> Seq<Seq<char>> {
    if d.len() == 0 {
        seq![Seq::<char>::empty()] + s.map_values(|c: char| seq![c]) + seq![Seq::<char>::empty()]
    } else {
        split_from(s, d, 0)
    }
}

/// Whether `d` occurs in `s` at position `i` (executable).
fn matches_at(s: &Vec<char>, d: &Vec<char>, i: usize) -> (r: bool)
    requires
        i <= s.len(),
    ensures
        r == occurs_at(s@, d@, i as int),
{
    if d.len() > s.len() - i {
        return false;
    }
    let mut j: usize = 0;
    while j < d.len()
        invariant
            j <= d.len(),
            i + d.len() <= s.len(),
            forall|k: int| 0 <= k < j ==> s@[i + k] == d@[k],
        decreases d.len() - j,
    {
        if s[i + j] != d[j] {
            assert(s@.subrange(i as int, i + d.len())[j as int] != d@[j as int]);
            return false;
        }
        j = j + 1;
    }
    assert(s@.subrange(i as int, i + d.len()) =~= d@);
    true
}

/// `str::split` with a string pattern, each piece collected.
pub fn split_by(s: &Vec<char>, d: &Vec<char>) -> (r: Vec<Vec<char>>)
    ensures
        r@.map_values(|v: Vec<char>| v@) == split_str(s@, d@),
{
    let mut r: Vec<Vec<char>> = Vec::new();
    if d.len() == 0 {
        r.push(Vec::new());
        let mut i: usize = 0;
        while i < s.len()
            invariant
                i <= s.len(),
                r@.map_values(|v: Vec<char>| v@) == seq![Seq::<char>::empty()] + s@.take(
                    i as int,
                ).map_values(|c: char| seq![c]),
            decreases s.len() - i,
        {
            let ghost before = r@;
            let one = vec![s[i]];
            r.push(one);
            i = i + 1;
            proof {
                lemma_map_push(before, one, |v: Vec<char>| v@);
                assert(s@.take(i as int) =~= s@.take(i - 1).push(s@[i - 1]));
                lemma_map_push(s@.take(i - 1), s@[i - 1], |c: char| seq![c]);
                assert(one@ == seq![s@[i - 1]]);
            }
        }
        let ghost before = r@;
        let e: Vec<char> = Vec::new();
        r.push(e);
        proof {
            lemma_map_push(before, e, |v: Vec<char>| v@);
            assert(s@.take(i as int) =~= s@);
        }
        return r;
    }
    let n = s.len();
    let mut pos: usize = 0;
    while pos <= n
        invariant
            pos <= n == s.len(),
            d.len() > 0,
            r@.map_values(|v: Vec<char>| v@) + split_from(s@, d@, pos as int) == split_str(
                s@,
                d@,
            ),
        decreases n + 1 - pos,
    {
        // the next occurrence of the separator
        let mut i = pos;
        let mut found = false;
        while d.len() <= n - i
            invariant_except_break
                !found,
            invariant
                pos <= i <= n == s.len(),
                d.len() > 0,
                find_from(s@, d@, pos as int) == find_from(s@, d@, i as int),
            ensures
                pos <= i <= n,
                find_from(s@, d@, pos as int) == find_from(s@, d@, i as int),
                found ==> occurs_at(s@, d@, i as int),
                !found ==> i + d.len() > n,
            decreases n - i,
        {
            if matches_at(s, d, i) {
                found = true;
                break;
            }
            i = i + 1;
        }
        let ghost before = r@;
        if found {
            assert(find_from(s@, d@, pos as int) == Some(i as int));
            let piece = slice_chars(s, pos, i);
            r.push(piece);
            proof {
                lemma_map_push(before, piece, |v: Vec<char>| v@);
                assert(split_from(s@, d@, pos as int) == seq![s@.subrange(pos as int, i as int)]
                    + split_from(s@, d@, i + d.len()));
                assert(r@.map_values(|v: Vec<char>| v@) + split_from(s@, d@, i + d.len()) =~= before.map_values(|v: Vec<char>| v@) + split_from(s@, d@, pos as int));
            }
            pos = i + d.len();
        } else {
            assert(find_from(s@, d@, i as int) is None);
            let piece = slice_chars(s, pos, n);
            r.push(piece);
            proof {
                lemma_map_push(before, piece, |v: Vec<char>| v@);
                assert(s@.skip(pos as int) =~= s@.subrange(pos as int, n as int));
                assert(r@.map_values(|v: Vec<char>| v@) =~= before.map_values(|v: Vec<char>| v@) + split_from(s@, d@, pos as int));
            }
            return r;
        }
    }
    proof {
        assert(false);
    }
    r
}

/// A line without its final carriage return.
pub open spec fn strip_cr(p: Seq<char>) -> Seq<char> {
    if p.len() > 0 && p.last() == '\r' {
        p.drop_last()
    } else {
        p
    }
}

/// `str::lines`: the text split at "\n" (a "\r" right before it is dropped
/// too); a final line ending adds no empty line.
pub open spec fn lines_of(s: Seq<char>) -> Seq<Seq<char>> {
    let parts = split_char(s, '\n');
    let ended = parts.take(parts.len() - 1).map_values(|p: Seq<char>| strip_cr(p));
    if s.len() == 0 || s.last() == '\n' {
        ended
    } else {
        ended.push(parts.last())
    }
}

/// `str::lines`, each line collected.
pub fn lines(s: &Vec<char>) -> (r: Vec<Vec<char>>)
    ensures
        r@.map_values(|v: Vec<char>| v@) == lines_of(s@),
{
    let parts = split_on(s, '\n');
    let ghost ps = parts@.map_values(|v: Vec<char>| v@);
    proof {
        lemma_split_char_nonempty(s@, '\n');
    }
    let mut r: Vec<Vec<char>> = Vec::new();
    let mut i: usize = 0;
    while i + 1 < parts.len()
        invariant
            i + 1 <= parts.len(),
            ps == parts@.map_values(|v: Vec<char>| v@),
            r@.map_values(|v: Vec<char>| v@) == ps.take(i as int).map_values(
                |p: Seq<char>| strip_cr(p),
            ),
        decreases parts.len() - i,
    {
        let p = &parts[i];
        let line = if p.len() > 0 && p[p.len() - 1] == '\r' {
            slice_chars(p, 0, p.len() - 1)
        } else {
            slice_chars(p, 0, p.len())
        };
        let ghost before = r@;
        r.push(line);
        i = i + 1;
        proof {
            assert(p@.subrange(0, p@.len() as int) =~= p@);
            assert(p@.subrange(0, p@.len() - 1) =~= p@.drop_last());
            lemma_map_push(before, line, |v: Vec<char>| v@);
            assert(ps.take(i as int) =~= ps.take(i - 1).push(ps[i - 1]));
            lemma_map_push(ps.take(i - 1), ps[i - 1], |p: Seq<char>| strip_cr(p));
        }
    }
    if s.len() > 0 && s[s.len() - 1] != '\n' {
        let last = slice_chars(&parts[i], 0, parts[i].len());
        let ghost before = r@;
        r.push(last);
        proof {
            assert(parts@[i as int]@.subrange(0, parts@[i as int]@.len() as int) =~= parts@[i as int]@);
            lemma_map_push(before, last, |v: Vec<char>| v@);
        }
    }
    r
}

} // verus!
