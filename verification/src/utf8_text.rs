//! UTF-8 decoding as `std::str::from_utf8` performs it, including where and
//! how it reports invalid input (`Utf8Error::valid_up_to` and `error_len`).

use vstd::prelude::*;
use vstd::utf8::{
    char_is_scalar, char_u32_cast,
    codepoint_width_2, codepoint_width_3, codepoint_width_4, encode_scalar, encode_utf8,
    is_scalar, has_width_1_encoding, has_width_2_encoding, has_width_3_encoding,
    has_width_4_encoding, leading_byte_width_1, leading_byte_width_2, leading_byte_width_3,
    leading_byte_width_4, last_continuation_byte, second_last_continuation_byte,
    third_last_continuation_byte,
};

verus! {

pub open spec fn is_cont(b: u8) -> bool {
    0x80 <= b <= 0xbf
}

/// The encoded length announced by a first byte (0 for a byte that cannot start a sequence).
pub open spec fn lead_width(b: u8) -> nat {
    if b < 0x80 {
        1
    } else if 0xc2 <= b <= 0xdf {
        2
    } else if 0xe0 <= b <= 0xef {
        3
    } else if 0xf0 <= b <= 0xf4 {
        4
    } else {
        0
    }
}

/// The allowed second byte after a given first byte (excluding overlong
/// forms, surrogates and values above U+10FFFF).
pub open spec fn second_ok(first: u8, b: u8) -> bool {
    if first == 0xe0 {
        0xa0 <= b <= 0xbf
    } else if first == 0xed {
        0x80 <= b <= 0x9f
    } else if first == 0xf0 {
        0x90 <= b <= 0xbf
    } else if first == 0xf4 {
        0x80 <= b <= 0x8f
    } else {
        is_cont(b)
    }
}

pub enum Utf8Step {
    /// A scalar value and the number of bytes it used.
    Scalar(u32, nat),
    /// Invalid input: the length of the bad sequence, or `None` when the input
    /// ended inside a sequence.
    Invalid(Option<u8>),
}

/// What the decoder finds at the start of non-empty input.
pub open spec fn first_step(b: Seq<u8>) -> Utf8Step {
    let w = lead_width(b[0]);
    if w == 1 {
        Utf8Step::Scalar(b[0] as u32, 1)
    } else if w == 0 {
        Utf8Step::Invalid(Some(1))
    } else if b.len() < 2 {
        Utf8Step::Invalid(None)
    } else if !second_ok(b[0], b[1]) {
        Utf8Step::Invalid(Some(1))
    } else if w == 2 {
        Utf8Step::Scalar(codepoint_width_2(b[0], b[1]), 2)
    } else if b.len() < 3 {
        Utf8Step::Invalid(None)
    } else if !is_cont(b[2]) {
        Utf8Step::Invalid(Some(2))
    } else if w == 3 {
        Utf8Step::Scalar(codepoint_width_3(b[0], b[1], b[2]), 3)
    } else if b.len() < 4 {
        Utf8Step::Invalid(None)
    } else if !is_cont(b[3]) {
        Utf8Step::Invalid(Some(3))
    } else {
        Utf8Step::Scalar(codepoint_width_4(b[0], b[1], b[2], b[3]), 4)
    }
}

/// The characters that `b` encodes, or the pair `(valid_up_to, error_len)`
/// that `std::str::from_utf8` reports for it.
pub open spec fn utf8_decode(b: Seq<u8>) -> Result<Seq<char>, (nat, Option<u8>)>
    decreases b.len(),
{
    if b.len() == 0 {
        Ok(seq![])
    } else {
        match first_step(b) {
            Utf8Step::Scalar(u, w) => {
                if 1 <= w <= b.len() {
                    match utf8_decode(b.skip(w as int)) {
                        Ok(cs) => Ok(seq![u as char] + cs),
                        Err((p, l)) => Err((p + w, l)),
                    }
                } else {
                    Err((0, None))
                }
            },
            Utf8Step::Invalid(l) => Err((0, l)),
        }
    }
}

pub open spec fn shift_result(
    acc: Seq<char>,
    i: nat,
    r: Result<Seq<char>, (nat, Option<u8>)>,
) -> Result<Seq<char>, (nat, Option<u8>)> {
    match r {
        Ok(cs) => Ok(acc + cs),
        Err((p, l)) => Err((p + i, l)),
    }
}

proof fn lemma_width2(b0: u8, b1: u8)
    by (bit_vector)
    requires
        0xc2 <= b0 <= 0xdf,
        0x80 <= b1 <= 0xbf,
    ensures
        has_width_2_encoding(codepoint_width_2(b0, b1)),
{
}

proof fn lemma_width3(b0: u8, b1: u8, b2: u8)
    by (bit_vector)
    requires
        0xe0 <= b0 <= 0xef,
        0x80 <= b1 <= 0xbf,
        0x80 <= b2 <= 0xbf,
        b0 == 0xe0 ==> 0xa0 <= b1,
        b0 == 0xed ==> b1 <= 0x9f,
    ensures
        has_width_3_encoding(codepoint_width_3(b0, b1, b2)),
{
}

proof fn lemma_width4(b0: u8, b1: u8, b2: u8, b3: u8)
    by (bit_vector)
    requires
        0xf0 <= b0 <= 0xf4,
        0x80 <= b1 <= 0xbf,
        0x80 <= b2 <= 0xbf,
        0x80 <= b3 <= 0xbf,
        b0 == 0xf0 ==> 0x90 <= b1,
        b0 == 0xf4 ==> b1 <= 0x8f,
    ensures
        has_width_4_encoding(codepoint_width_4(b0, b1, b2, b3)),
{
}

/// Decoded scalars are Unicode scalar values.
proof fn lemma_step_scalar(b: Seq<u8>)
    requires
        b.len() > 0,
    ensures
        first_step(b) matches Utf8Step::Scalar(u, w) ==> is_scalar(u) && 1 <= w <= 4 && w <= b.len(),
{
    let b0 = b[0];
    if lead_width(b0) == 2 && b.len() >= 2 && second_ok(b0, b[1]) {
        lemma_width2(b0, b[1]);
    }
    if lead_width(b0) == 3 && b.len() >= 3 && second_ok(b0, b[1]) && is_cont(b[2]) {
        lemma_width3(b0, b[1], b[2]);
    }
    if lead_width(b0) == 4 && b.len() >= 4 && second_ok(b0, b[1]) && is_cont(b[2]) && is_cont(
        b[3],
    ) {
        lemma_width4(b0, b[1], b[2], b[3]);
    }
}

/// `char::from_u32`: the character with the given scalar value, or `None`
/// for a surrogate or a value above U+10FFFF.
#[verifier::external_body]
pub(crate) fn char_from_u32(u: u32) -> (r: Option<char>)
    ensures
        r is Some <==> is_scalar(u),
        r matches Some(c) ==> c as u32 == u,
{
    char::from_u32(u)
}

/// Decodes `b` as `std::str::from_utf8` does.
pub fn decode_utf8(b: &Vec<u8>) -> (r: Result<Vec<char>, (usize, Option<u8>)>)
    ensures
        r matches Ok(cs) ==> utf8_decode(b@) == Ok::<Seq<char>, (nat, Option<u8>)>(cs@),
        r matches Err((p, l)) ==> utf8_decode(b@) == Err::<Seq<char>, (nat, Option<u8>)>(
            (p as nat, l),
        ),
{
    let n = b.len();
    let mut acc: Vec<char> = Vec::new();
    let mut i: usize = 0;
    assert(b@.skip(0) =~= b@);
    while i < n
        invariant
            i <= n == b.len(),
            utf8_decode(b@) == shift_result(acc@, i as nat, utf8_decode(b@.skip(i as int))),
        decreases n - i,
    {
        let ghost rest = b@.skip(i as int);
        let b0 = b[i];
        assert(rest[0] == b0);
        proof {
            lemma_step_scalar(rest);
        }
        let (u, w): (u32, usize) = if b0 < 0x80 {
            (b0 as u32, 1)
        } else {
            let w: usize = if 0xc2 <= b0 && b0 <= 0xdf {
                2
            } else if 0xe0 <= b0 && b0 <= 0xef {
                3
            } else if 0xf0 <= b0 && b0 <= 0xf4 {
                4
            } else {
                0
            };
            if w == 0 {
                return Err((i, Some(1)));
            }
            if i + 1 >= n {
                return Err((i, None));
            }
            let b1 = b[i + 1];
            assert(rest[1] == b1);
            let ok1 = if b0 == 0xe0 {
                0xa0 <= b1 && b1 <= 0xbf
            } else if b0 == 0xed {
                0x80 <= b1 && b1 <= 0x9f
            } else if b0 == 0xf0 {
                0x90 <= b1 && b1 <= 0xbf
            } else if b0 == 0xf4 {
                0x80 <= b1 && b1 <= 0x8f
            } else {
                0x80 <= b1 && b1 <= 0xbf
            };
            if !ok1 {
                return Err((i, Some(1)));
            }
            if w == 2 {
                ((((b0 & 0x1f) as u32) << 6) | ((b1 & 0x3f) as u32), 2)
            } else {
                if i + 2 >= n {
                    return Err((i, None));
                }
                let b2 = b[i + 2];
                assert(rest[2] == b2);
                if !(0x80 <= b2 && b2 <= 0xbf) {
                    return Err((i, Some(2)));
                }
                if w == 3 {
                    (
                        (((b0 & 0x0f) as u32) << 12) | (((b1 & 0x3f) as u32) << 6) | ((b2 & 0x3f)
                            as u32),
                        3,
                    )
                } else {
                    if i + 3 >= n {
                        return Err((i, None));
                    }
                    let b3 = b[i + 3];
                    assert(rest[3] == b3);
                    if !(0x80 <= b3 && b3 <= 0xbf) {
                        return Err((i, Some(3)));
                    }
                    (
                        (((b0 & 0x07) as u32) << 18) | (((b1 & 0x3f) as u32) << 12) | (((b2
                            & 0x3f) as u32) << 6) | ((b3 & 0x3f) as u32),
                        4,
                    )
                }
            }
        };
        assert(first_step(rest) == Utf8Step::Scalar(u, w as nat));
        let c = match char_from_u32(u) {
            Some(c) => c,
            None => {
                return Err((i, None));
            },
        };
        proof {
            assert(rest.skip(w as int) =~= b@.skip(i + w));
            char_u32_cast(c, u);
            assert((u as char) == c);
            let d = utf8_decode(b@.skip(i + w));
            assert(utf8_decode(rest) == match d {
                Ok(cs) => Ok(seq![u as char] + cs),
                Err((p, l)) => Err(((p + w) as nat, l)),
            });
            let acc2 = acc@.push(c);
            match d {
                Ok(cs) => {
                    assert(acc@ + (seq![c] + cs) =~= acc2 + cs);
                },
                Err((p, l)) => {},
            }
        }
        acc.push(c);
        i = i + w;
    }
    assert(b@.skip(n as int) =~= Seq::<u8>::empty());
    assert(acc@ + Seq::<char>::empty() =~= acc@);
    Ok(acc)
}

/// Decoding the UTF-8 encoding of characters gives them back.
pub proof fn lemma_decode_encode(s: Seq<char>)
    ensures
        utf8_decode(encode_utf8(s)) == Ok::<Seq<char>, (nat, Option<u8>)>(s),
    decreases s.len(),
{
    if s.len() == 0 {
        assert(encode_utf8(s) =~= Seq::<u8>::empty());
        assert(s =~= Seq::<char>::empty());
    } else {
        let c = s[0];
        let u = c as u32;
        char_is_scalar(c);
        char_u32_cast(c, u);
        let e = encode_scalar(u);
        let rest = encode_utf8(s.drop_first());
        let b = e + rest;
        assert(encode_utf8(s) == b);
        lemma_decode_encode(s.drop_first());
        lemma_first_step_encode(u, rest);
        assert(b.skip(e.len() as int) =~= rest);
        assert(b.len() > 0);
        assert(utf8_decode(b) == Ok::<Seq<char>, (nat, Option<u8>)>(
            seq![u as char] + s.drop_first(),
        ));
        assert(seq![c] + s.drop_first() =~= s);
        assert(seq![u as char] + s.drop_first() == s);
    }
}

proof fn lemma_first_step_encode(u: u32, rest: Seq<u8>)
    requires
        is_scalar(u),
    ensures
        first_step(encode_scalar(u) + rest) == Utf8Step::Scalar(u, encode_scalar(u).len()),
        1 <= encode_scalar(u).len() <= 4,
{
    let e = encode_scalar(u);
    let b = e + rest;
    if has_width_1_encoding(u) {
        lemma_enc1(u);
        assert(b[0] == leading_byte_width_1(u));
    } else if has_width_2_encoding(u) {
        lemma_enc2(u);
        assert(b[0] == leading_byte_width_2(u));
        assert(b[1] == last_continuation_byte(u));
    } else if has_width_3_encoding(u) {
        lemma_enc3(u);
        assert(b[0] == leading_byte_width_3(u));
        assert(b[1] == second_last_continuation_byte(u));
        assert(b[2] == last_continuation_byte(u));
    } else {
        lemma_enc4(u);
        assert(b[0] == leading_byte_width_4(u));
        assert(b[1] == third_last_continuation_byte(u));
        assert(b[2] == second_last_continuation_byte(u));
        assert(b[3] == last_continuation_byte(u));
    }
}

proof fn lemma_enc1(u: u32)
    by (bit_vector)
    requires
        has_width_1_encoding(u),
    ensures
        leading_byte_width_1(u) < 0x80,
        leading_byte_width_1(u) as u32 == u,
{
}

proof fn lemma_enc2(u: u32)
    by (bit_vector)
    requires
        has_width_2_encoding(u),
    ensures
        0xc2 <= leading_byte_width_2(u) <= 0xdf,
        0x80 <= last_continuation_byte(u) <= 0xbf,
        codepoint_width_2(leading_byte_width_2(u), last_continuation_byte(u)) == u,
{
}

proof fn lemma_enc3(u: u32)
    by (bit_vector)
    requires
        has_width_3_encoding(u),
    ensures
        0xe0 <= leading_byte_width_3(u) <= 0xef,
        0x80 <= second_last_continuation_byte(u) <= 0xbf,
        0x80 <= last_continuation_byte(u) <= 0xbf,
        leading_byte_width_3(u) == 0xe0 ==> 0xa0 <= second_last_continuation_byte(u),
        leading_byte_width_3(u) == 0xed ==> second_last_continuation_byte(u) <= 0x9f,
        codepoint_width_3(
            leading_byte_width_3(u),
            second_last_continuation_byte(u),
            last_continuation_byte(u),
        ) == u,
{
}

proof fn lemma_enc4(u: u32)
    by (bit_vector)
    requires
        has_width_4_encoding(u),
    ensures
        0xf0 <= leading_byte_width_4(u) <= 0xf4,
        0x80 <= third_last_continuation_byte(u) <= 0xbf,
        0x80 <= second_last_continuation_byte(u) <= 0xbf,
        0x80 <= last_continuation_byte(u) <= 0xbf,
        leading_byte_width_4(u) == 0xf0 ==> 0x90 <= third_last_continuation_byte(u),
        leading_byte_width_4(u) == 0xf4 ==> third_last_continuation_byte(u) <= 0x8f,
        codepoint_width_4(
            leading_byte_width_4(u),
            third_last_continuation_byte(u),
            second_last_continuation_byte(u),
            last_continuation_byte(u),
        ) == u,
{
}

} // verus!
