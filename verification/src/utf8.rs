//! The UTF-8 grammar: the strict first-byte table, its agreement with the
//! scalar-level well-formedness predicate, error positions, and the cheap
//! boundary re-check.
use vstd::prelude::*;
use vstd::utf8::*;

verus! {

/// Admissible second byte of a 3-byte sequence headed by `b0`: the ranges
/// that exclude overlong encodings (lead `0xE0`) and surrogates (`0xED`).
pub open spec fn utf8_second_w3(b0: u8, b1: u8) -> bool {
    if b0 == 0xe0 {
        0xa0 <= b1 <= 0xbf
    } else if b0 == 0xed {
        0x80 <= b1 <= 0x9f
    } else {
        is_continuation_byte(b1)
    }
}

/// Admissible second byte of a 4-byte sequence headed by `b0`: the ranges
/// that exclude overlong encodings (lead `0xF0`) and values beyond the
/// scalar maximum (`0xF4`).
pub open spec fn utf8_second_w4(b0: u8, b1: u8) -> bool {
    if b0 == 0xf0 {
        0x90 <= b1 <= 0xbf
    } else if b0 == 0xf4 {
        0x80 <= b1 <= 0x8f
    } else {
        is_continuation_byte(b1)
    }
}

/// The width accepted by the strict first-byte table at the head of `s`,
/// or zero when the head is not a well-formed scalar encoding.
pub open spec fn utf8_strict_width(s: Seq<u8>) -> int
    recommends
        s.len() > 0,
{
    let b0 = s[0];
    if b0 <= 0x7f {
        1
    } else if 0xc2 <= b0 <= 0xdf {
        if s.len() >= 2 && is_continuation_byte(s[1]) {
            2
        } else {
            0
        }
    } else if 0xe0 <= b0 <= 0xef {
        if s.len() >= 3 && utf8_second_w3(b0, s[1]) && is_continuation_byte(s[2]) {
            3
        } else {
            0
        }
    } else if 0xf0 <= b0 <= 0xf4 {
        if s.len() >= 4 && utf8_second_w4(b0, s[1]) && is_continuation_byte(s[2])
            && is_continuation_byte(s[3]) {
            4
        } else {
            0
        }
    } else {
        0
    }
}

/// The defective length reported for a rejected head: the number of bytes
/// forming the maximal prefix of a well-formed encoding, or none when the
/// buffer ended before the encoding could complete.
pub open spec fn utf8_first_err_len(s: Seq<u8>) -> Option<int>
    recommends
        s.len() > 0,
        utf8_strict_width(s) == 0,
{
    let b0 = s[0];
    if 0xc2 <= b0 <= 0xdf {
        if s.len() < 2 {
            None
        } else {
            Some(1)
        }
    } else if 0xe0 <= b0 <= 0xef {
        if s.len() < 2 {
            None
        } else if !utf8_second_w3(b0, s[1]) {
            Some(1)
        } else if s.len() < 3 {
            None
        } else {
            Some(2)
        }
    } else if 0xf0 <= b0 <= 0xf4 {
        if s.len() < 2 {
            None
        } else if !utf8_second_w4(b0, s[1]) {
            Some(1)
        } else if s.len() < 3 {
            None
        } else if !is_continuation_byte(s[2]) {
            Some(2)
        } else if s.len() < 4 {
            None
        } else {
            Some(3)
        }
    } else {
        Some(1)
    }
}

/// Position of the first defective unit of a malformed buffer.
pub open spec fn utf8_err_pos(s: Seq<u8>) -> int
    recommends
        !valid_utf8(s),
    decreases s.len(),
{
    if s.len() == 0 {
        0
    } else if valid_first_scalar(s) {
        length_of_first_scalar(s) + utf8_err_pos(pop_first_scalar(s))
    } else {
        0
    }
}

/// Defective length reported for a malformed buffer.
pub open spec fn utf8_err_len(s: Seq<u8>) -> Option<int>
    recommends
        !valid_utf8(s),
    decreases s.len(),
{
    if s.len() == 0 {
        None
    } else if valid_first_scalar(s) {
        utf8_err_len(pop_first_scalar(s))
    } else {
        utf8_first_err_len(s)
    }
}

/// The strict first-byte table accepts the head of a byte sequence exactly
/// when the head is a well-formed scalar encoding, and then agrees with
/// the scalar-level grammar on its width and decodes to a scalar value.
pub proof fn lemma_strict_first(s: Seq<u8>)
    requires
        s.len() > 0,
    ensures
        (utf8_strict_width(s) != 0) == valid_first_scalar(s),
        utf8_strict_width(s) != 0 ==> {
            &&& length_of_first_scalar(s) == utf8_strict_width(s)
            &&& utf8_strict_width(s) <= s.len()
            &&& is_scalar(decode_first_codepoint(s))
        },
{
    let b0 = s[0];
    if b0 <= 0x7f {
        assert(is_leading_byte_width_1(b0));
        assert(valid_first_scalar(s));
    } else if 0xc0 <= b0 <= 0xdf {
        if s.len() >= 2 && is_continuation_byte(s[1]) {
            let b1 = s[1];
            let cp = codepoint_width_2(b0, b1);
            assert(cp == (((b0 & 0x1f) as u32) << 6) | ((b1 & 0x3f) as u32));
            assert(cp <= 0x7ff && ((0xc2 <= b0) == (0x80 <= cp))) by (bit_vector)
                requires
                    0xc0 <= b0 <= 0xdf,
                    0x80 <= b1 <= 0xbf,
                    cp == (((b0 & 0x1f) as u32) << 6) | ((b1 & 0x3f) as u32),
            ;
            assert(cp <= 0x7ff ==> not_surrogate(cp));
            if 0xc2 <= b0 {
                assert(valid_first_scalar(s));
                assert(length_of_first_codepoint(s) == 2);
                assert(is_scalar(cp));
            } else {
                assert(!not_overlong_encoding(cp, 2));
                assert(length_of_first_codepoint(s) == 2);
                assert(!valid_first_scalar(s));
            }
        } else {
            assert(!valid_leading_and_continuation_bytes_first_codepoint(s));
            assert(utf8_strict_width(s) == 0);
        }
    } else if 0xe0 <= b0 <= 0xef {
        if s.len() >= 3 && is_continuation_byte(s[1]) && is_continuation_byte(s[2]) {
            let b1 = s[1];
            let b2 = s[2];
            let cp = codepoint_width_3(b0, b1, b2);
            assert(cp == (((b0 & 0x0f) as u32) << 12) | (((b1 & 0x3f) as u32) << 6) | ((b2
                & 0x3f) as u32));
            assert({
                &&& cp <= 0xffff
                &&& ((0x800 <= cp) == (b0 != 0xe0 || 0xa0 <= b1))
                &&& ((0xd800 <= cp <= 0xdfff) == (b0 == 0xed && 0xa0 <= b1))
            }) by (bit_vector)
                requires
                    0xe0 <= b0 <= 0xef,
                    0x80 <= b1 <= 0xbf,
                    0x80 <= b2 <= 0xbf,
                    cp == (((b0 & 0x0f) as u32) << 12) | (((b1 & 0x3f) as u32) << 6) | ((b2
                        & 0x3f) as u32),
            ;
            assert(length_of_first_codepoint(s) == 3);
            if utf8_second_w3(b0, b1) {
                assert(valid_first_scalar(s));
                assert(is_scalar(cp));
            } else {
                assert(!valid_first_scalar(s));
            }
        } else {
            if s.len() >= 2 && !is_continuation_byte(s[1]) {
                assert(!utf8_second_w3(b0, s[1]));
            }
            assert(utf8_strict_width(s) == 0);
            assert(!valid_leading_and_continuation_bytes_first_codepoint(s));
        }
    } else if 0xf0 <= b0 <= 0xf7 {
        if s.len() >= 4 && is_continuation_byte(s[1]) && is_continuation_byte(s[2])
            && is_continuation_byte(s[3]) {
            let b1 = s[1];
            let b2 = s[2];
            let b3 = s[3];
            let cp = codepoint_width_4(b0, b1, b2, b3);
            assert(cp == (((b0 & 0x07) as u32) << 18) | (((b1 & 0x3f) as u32) << 12) | (((b2
                & 0x3f) as u32) << 6) | ((b3 & 0x3f) as u32));
            assert({
                &&& ((0x10000 <= cp) == (b0 != 0xf0 || 0x90 <= b1))
                &&& ((cp <= 0x10ffff) == (b0 < 0xf4 || (b0 == 0xf4 && b1 <= 0x8f)))
            }) by (bit_vector)
                requires
                    0xf0 <= b0 <= 0xf7,
                    0x80 <= b1 <= 0xbf,
                    0x80 <= b2 <= 0xbf,
                    0x80 <= b3 <= 0xbf,
                    cp == (((b0 & 0x07) as u32) << 18) | (((b1 & 0x3f) as u32) << 12) | (((b2
                        & 0x3f) as u32) << 6) | ((b3 & 0x3f) as u32),
            ;
            assert(length_of_first_codepoint(s) == 4);
            if b0 <= 0xf4 && utf8_second_w4(b0, b1) {
                assert(valid_first_scalar(s));
                assert(is_scalar(cp));
            } else {
                assert(!valid_first_scalar(s));
            }
        } else {
            if s.len() >= 2 && !is_continuation_byte(s[1]) {
                assert(!utf8_second_w4(b0, s[1]));
            }
            assert(utf8_strict_width(s) == 0);
            assert(!valid_leading_and_continuation_bytes_first_codepoint(s));
        }
    } else {
        assert(is_continuation_byte(b0) || b0 >= 0xf8);
        assert(!valid_leading_and_continuation_bytes_first_codepoint(s));
        assert(utf8_strict_width(s) == 0);
    }
}

/// Checks the scalar encoding starting at `i` against the strict table.
/// Returns the codepoint and its width, or the defective length on a
/// malformed head.
pub(crate) fn utf8_step(buf: &[u8], i: usize) -> (r: Result<(u32, usize), Option<usize>>)
    requires
        i < buf@.len(),
    ensures
        match r {
            Ok(p) => {
                &&& utf8_strict_width(buf@.skip(i as int)) == p.1 as int
                &&& p.0 == decode_first_codepoint(buf@.skip(i as int))
                &&& 1 <= p.1
                &&& i + p.1 <= buf@.len()
            },
            Err(el) => {
                &&& utf8_strict_width(buf@.skip(i as int)) == 0
                &&& match el {
                    Some(n) => utf8_first_err_len(buf@.skip(i as int)) == Some(n as int),
                    None => utf8_first_err_len(buf@.skip(i as int)) is None,
                }
            },
        },
{
    let ghost t = buf@.skip(i as int);
    let n = buf.len();
    let b0 = buf[i];
    proof {
        assert(t[0] == buf@[i as int]);
    }
    if b0 <= 0x7f {
        proof {
            assert(b0 as u32 == (b0 & 0x7f) as u32) by (bit_vector)
                requires
                    b0 <= 0x7f,
            ;
        }
        Ok(((b0 as u32), 1))
    } else if 0xc2 <= b0 && b0 <= 0xdf {
        if i + 1 >= n {
            return Err(None);
        }
        let b1 = buf[i + 1];
        proof {
            assert(t[1] == buf@[i + 1]);
        }
        if !(0x80 <= b1 && b1 <= 0xbf) {
            return Err(Some(1));
        }
        Ok(((((b0 & 0x1f) as u32) << 6u32) | ((b1 & 0x3f) as u32), 2))
    } else if 0xe0 <= b0 && b0 <= 0xef {
        if i + 1 >= n {
            return Err(None);
        }
        let b1 = buf[i + 1];
        proof {
            assert(t[1] == buf@[i + 1]);
        }
        let second_ok = if b0 == 0xe0 {
            0xa0 <= b1 && b1 <= 0xbf
        } else if b0 == 0xed {
            0x80 <= b1 && b1 <= 0x9f
        } else {
            0x80 <= b1 && b1 <= 0xbf
        };
        if !second_ok {
            return Err(Some(1));
        }
        if i + 2 >= n {
            return Err(None);
        }
        let b2 = buf[i + 2];
        proof {
            assert(t[2] == buf@[i + 2]);
        }
        if !(0x80 <= b2 && b2 <= 0xbf) {
            return Err(Some(2));
        }
        Ok(((((b0 & 0x0f) as u32) << 12u32) | (((b1 & 0x3f) as u32) << 6u32) | ((b2
            & 0x3f) as u32), 3))
    } else if 0xf0 <= b0 && b0 <= 0xf4 {
        if i + 1 >= n {
            return Err(None);
        }
        let b1 = buf[i + 1];
        proof {
            assert(t[1] == buf@[i + 1]);
        }
        let second_ok = if b0 == 0xf0 {
            0x90 <= b1 && b1 <= 0xbf
        } else if b0 == 0xf4 {
            0x80 <= b1 && b1 <= 0x8f
        } else {
            0x80 <= b1 && b1 <= 0xbf
        };
        if !second_ok {
            return Err(Some(1));
        }
        if i + 2 >= n {
            return Err(None);
        }
        let b2 = buf[i + 2];
        proof {
            assert(t[2] == buf@[i + 2]);
        }
        if !(0x80 <= b2 && b2 <= 0xbf) {
            return Err(Some(2));
        }
        if i + 3 >= n {
            return Err(None);
        }
        let b3 = buf[i + 3];
        proof {
            assert(t[3] == buf@[i + 3]);
        }
        if !(0x80 <= b3 && b3 <= 0xbf) {
            return Err(Some(3));
        }
        Ok(((((b0 & 0x07) as u32) << 18u32) | (((b1 & 0x3f) as u32) << 12u32) | (((b2
            & 0x3f) as u32) << 6u32) | ((b3 & 0x3f) as u32), 4))
    } else {
        Err(Some(1))
    }
}

/// Scans a whole byte buffer against the UTF-8 grammar. Succeeds exactly
/// on well-formed input; otherwise reports the position of the first
/// defective unit and its length, where determinable.
pub(crate) fn utf8_validate_range(buf: &[u8]) -> (r: Result<(), (usize, Option<usize>)>)
    ensures
        r is Ok <==> valid_utf8(buf@),
        r is Err ==> (r->Err_0).0 as int == utf8_err_pos(buf@),
        r is Err ==> match (r->Err_0).1 {
            Some(n) => utf8_err_len(buf@) == Some(n as int),
            None => utf8_err_len(buf@) is None,
        },
{
    let ghost s = buf@;
    let n = buf.len();
    let mut i: usize = 0;
    proof {
        assert(s.skip(0) =~= s);
    }
    while i < n
        invariant
            0 <= i <= n,
            n == s.len(),
            s == buf@,
            valid_utf8(s) <==> valid_utf8(s.skip(i as int)),
            !valid_utf8(s.skip(i as int)) ==> utf8_err_pos(s) == i + utf8_err_pos(
                s.skip(i as int),
            ),
            !valid_utf8(s.skip(i as int)) ==> utf8_err_len(s) == utf8_err_len(s.skip(i as int)),
        decreases n - i,
    {
        let ghost t = s.skip(i as int);
        match utf8_step(buf, i) {
            Ok(p) => {
                let w = p.1;
                proof {
                    lemma_strict_first(t);
                    assert(valid_first_scalar(t));
                    assert(length_of_first_scalar(t) == w as int);
                    assert(pop_first_scalar(t) =~= s.skip(i + w));
                }
                i = i + w;
            },
            Err(el) => {
                proof {
                    lemma_strict_first(t);
                    assert(!valid_first_scalar(t));
                    assert(!valid_utf8(t));
                    assert(utf8_err_pos(t) == 0);
                    assert(utf8_err_len(t) == utf8_first_err_len(t));
                }
                return Err((i, el));
            },
        }
    }
    proof {
        assert(s.skip(n as int) =~= Seq::<u8>::empty());
    }
    Ok(())
}

/// Width of the scalar encoding headed by lead byte `b`, or zero when `b`
/// cannot head one.
pub open spec fn utf8_lead_width(b: u8) -> int {
    if is_leading_byte_width_1(b) {
        1
    } else if is_leading_byte_width_2(b) {
        2
    } else if is_leading_byte_width_3(b) {
        3
    } else if is_leading_byte_width_4(b) {
        4
    } else {
        0
    }
}

/// The tail condition of the cheap re-check: walking backward over at most
/// three continuation bytes, the final scalar encoding is complete.
pub open spec fn utf8_tail_ok(s: Seq<u8>) -> bool {
    let n = s.len() as int;
    if n == 0 {
        true
    } else if !is_continuation_byte(s[n - 1]) {
        utf8_lead_width(s[n - 1]) == 1
    } else if n >= 2 && !is_continuation_byte(s[n - 2]) {
        utf8_lead_width(s[n - 2]) == 2
    } else if n >= 3 && !is_continuation_byte(s[n - 3]) {
        utf8_lead_width(s[n - 3]) == 3
    } else if n >= 4 && !is_continuation_byte(s[n - 4]) {
        utf8_lead_width(s[n - 4]) == 4
    } else {
        false
    }
}

/// What the cheap subrange re-check tests: the head is not a stray
/// continuation byte, and the tail condition holds.
pub open spec fn utf8_boundary_ok(s: Seq<u8>) -> bool {
    s.len() == 0 || (!is_continuation_byte(s[0]) && utf8_tail_ok(s))
}

/// Position reported by a failed re-check: the stray continuation byte at
/// the head, or the end of the buffer for a cut tail.
pub open spec fn utf8_sub_err_pos(s: Seq<u8>) -> int
    recommends
        !utf8_boundary_ok(s),
{
    if s.len() > 0 && is_continuation_byte(s[0]) {
        0
    } else {
        s.len() as int
    }
}

/// Defective length reported by a failed re-check: one for a stray head
/// continuation byte, none for a cut tail.
pub open spec fn utf8_sub_err_len(s: Seq<u8>) -> Option<int>
    recommends
        !utf8_boundary_ok(s),
{
    if s.len() > 0 && is_continuation_byte(s[0]) {
        Some(1)
    } else {
        None
    }
}

/// A well-formed head scalar has the width its lead byte announces, fits
/// in the buffer, and consists of one lead byte and continuation bytes.
pub proof fn lemma_valid_first_len(s: Seq<u8>)
    requires
        s.len() > 0,
        valid_first_scalar(s),
    ensures
        length_of_first_scalar(s) == utf8_lead_width(s[0]),
        1 <= length_of_first_scalar(s) <= s.len(),
        !is_continuation_byte(s[0]),
        forall|k: int| 1 <= k < length_of_first_scalar(s) ==> is_continuation_byte(#[trigger] s[k]),
{
}

/// A scalar boundary of the suffix starting at a scalar boundary of the
/// whole buffer is a scalar boundary of the whole buffer.
pub proof fn lemma_boundary_compose(s: Seq<u8>, p: int, q: int)
    requires
        valid_utf8(s),
        0 <= p <= s.len(),
        is_char_boundary(s, p),
        is_char_boundary(s.subrange(p, s.len() as int), q),
    ensures
        is_char_boundary(s, p + q),
    decreases s.len(),
{
    vstd::utf8::valid_utf8_split(s, p);
    let sub = s.subrange(p, s.len() as int);
    assert(q >= 0 && q <= sub.len()) by {
        if q < 0 || q > sub.len() {
            assert(!is_char_boundary(sub, q));
        }
    }
    if p == 0 {
        assert(s.subrange(0, s.len() as int) =~= s);
    } else {
        let lf = length_of_first_scalar(s);
        assert(is_char_boundary(pop_first_scalar(s), p - lf));
        assert(pop_first_scalar(s).subrange(p - lf, pop_first_scalar(s).len() as int)
            =~= s.subrange(p, s.len() as int));
        assert(p - lf >= 0) by {
            if p - lf < 0 {
                assert(!is_char_boundary(pop_first_scalar(s), p - lf));
            }
        }
        lemma_boundary_compose(pop_first_scalar(s), p - lf, q);
    }
}

/// Every well-formed buffer passes the tail condition of the cheap
/// re-check.
pub proof fn lemma_valid_tail_ok(s: Seq<u8>)
    requires
        valid_utf8(s),
    ensures
        utf8_tail_ok(s),
    decreases s.len(),
{
    if s.len() == 0 {
    } else {
        lemma_valid_first_len(s);
        let lf = length_of_first_scalar(s);
        let rest = pop_first_scalar(s);
        let n = s.len() as int;
        if rest.len() == 0 {
            assert(lf == n);
            assert(forall|k: int| 1 <= k < n ==> is_continuation_byte(#[trigger] s[k]));
        } else {
            lemma_valid_tail_ok(rest);
            let m = rest.len() as int;
            assert(rest[m - 1] == s[n - 1]);
            if m >= 2 {
                assert(rest[m - 2] == s[n - 2]);
            }
            if m >= 3 {
                assert(rest[m - 3] == s[n - 3]);
            }
            if m >= 4 {
                assert(rest[m - 4] == s[n - 4]);
            }
            if m == 1 {
                assert(!is_continuation_byte(rest[0]) && utf8_lead_width(rest[0]) == 1);
            } else if m == 2 && is_continuation_byte(rest[m - 1]) {
                assert(!is_continuation_byte(rest[0]) && utf8_lead_width(rest[0]) == 2);
            } else if m == 3 && is_continuation_byte(rest[m - 1]) && is_continuation_byte(
                rest[m - 2],
            ) {
                assert(!is_continuation_byte(rest[0]) && utf8_lead_width(rest[0]) == 3);
            }
        }
    }
}

/// A well-formed buffer always passes the cheap re-check.
pub proof fn lemma_valid_boundary_ok(s: Seq<u8>)
    requires
        valid_utf8(s),
    ensures
        utf8_boundary_ok(s),
{
    if s.len() > 0 {
        lemma_valid_first_len(s);
        lemma_valid_tail_ok(s);
    }
}

/// On a subrange of a well-formed buffer, passing the cheap re-check
/// implies the subrange is itself well-formed.
pub proof fn lemma_boundary_ok_subrange(s: Seq<u8>, i: int, j: int)
    requires
        valid_utf8(s),
        0 <= i <= j <= s.len(),
        utf8_boundary_ok(s.subrange(i, j)),
    ensures
        valid_utf8(s.subrange(i, j)),
{
    broadcast use vstd::utf8::valid_utf8_split;
    broadcast use vstd::utf8::is_char_boundary_iff_not_is_continuation_byte;

    let t = s.subrange(i, j);
    if t.len() == 0 {
    } else {
        let tn = j - i;
        assert(t[0] == s[i]);
        assert(is_char_boundary(s, i));
        let u = s.subrange(i, s.len() as int);
        assert(valid_utf8(u));
        assert(forall|x: int| 0 <= x < tn ==> t[x] == #[trigger] u[x]);
        let k: int = if !is_continuation_byte(t[tn - 1]) {
            1int
        } else if tn >= 2 && !is_continuation_byte(t[tn - 2]) {
            2int
        } else if tn >= 3 && !is_continuation_byte(t[tn - 3]) {
            3int
        } else {
            4int
        };
        assert(tn >= k && !is_continuation_byte(t[tn - k]) && utf8_lead_width(t[tn - k]) == k);
        let p = tn - k;
        assert(is_char_boundary(u, p));
        let v = u.subrange(p, u.len() as int);
        assert(valid_utf8(v));
        assert(v.len() > 0);
        lemma_valid_first_len(v);
        assert(v[0] == u[p]);
        assert(length_of_first_scalar(v) == k);
        assert(is_char_boundary(v, k)) by {
            assert(is_char_boundary(pop_first_scalar(v), 0));
        }
        lemma_boundary_compose(u, p, k);
        assert(is_char_boundary(u, tn));
        assert(valid_utf8(u.subrange(0, tn)));
        assert(u.subrange(0, tn) =~= t);
    }
}

/// The end of a well-formed prefix of a well-formed buffer is a scalar
/// boundary: scalar widths are determined by the lead byte, so the two
/// decompositions agree step by step.
pub proof fn lemma_valid_prefix_boundary(u: Seq<u8>, m: int)
    requires
        valid_utf8(u),
        0 <= m <= u.len(),
        valid_utf8(u.subrange(0, m)),
    ensures
        is_char_boundary(u, m),
    decreases u.len(),
{
    if m == 0 {
    } else {
        let w = u.subrange(0, m);
        assert(w[0] == u[0]);
        lemma_valid_first_len(w);
        lemma_valid_first_len(u);
        let k = length_of_first_scalar(u);
        assert(length_of_first_scalar(w) == k);
        assert(k <= m);
        assert(pop_first_scalar(w) =~= pop_first_scalar(u).subrange(0, m - k));
        lemma_valid_prefix_boundary(pop_first_scalar(u), m - k);
    }
}

/// A non-empty well-formed window inside a well-formed buffer sits on
/// scalar boundaries.
pub proof fn lemma_utf8_valid_window(s: Seq<u8>, i: int, j: int)
    requires
        valid_utf8(s),
        0 <= i < j <= s.len(),
        valid_utf8(s.subrange(i, j)),
    ensures
        is_char_boundary(s, i),
        is_char_boundary(s, j),
{
    let w = s.subrange(i, j);
    lemma_valid_first_len(w);
    assert(w[0] == s[i]);
    vstd::utf8::is_char_boundary_iff_not_is_continuation_byte(s, i);
    vstd::utf8::valid_utf8_split(s, i);
    let u = s.subrange(i, s.len() as int);
    assert(w =~= u.subrange(0, j - i));
    lemma_valid_prefix_boundary(u, j - i);
    lemma_boundary_compose(s, i, j - i);
}

/// A zero byte inside a well-formed buffer is a whole scalar: boundaries
/// fall on both of its sides.
pub proof fn lemma_zero_boundary(s: Seq<u8>, i: int)
    requires
        valid_utf8(s),
        0 <= i < s.len(),
        s[i] == 0,
    ensures
        is_char_boundary(s, i),
        is_char_boundary(s, i + 1),
{
    assert(!is_continuation_byte(s[i]));
    vstd::utf8::is_char_boundary_iff_not_is_continuation_byte(s, i);
    assert(is_char_boundary(s, i));
    vstd::utf8::valid_utf8_split(s, i);
    let u = s.subrange(i, s.len() as int);
    assert(valid_utf8(u) && u.len() > 0);
    lemma_valid_first_len(u);
    assert(u[0] == s[i]);
    assert(length_of_first_scalar(u) == 1);
    assert(is_char_boundary(u, 1)) by {
        assert(is_char_boundary(pop_first_scalar(u), 0));
    }
    lemma_boundary_compose(s, i, 1);
}

/// Width announced by a lead byte, or zero when the byte cannot head a
/// scalar encoding.
fn utf8_lead_width_exec(b: u8) -> (w: usize)
    ensures
        w as int == utf8_lead_width(b),
{
    if b <= 0x7f {
        1
    } else if 0xc0 <= b && b <= 0xdf {
        2
    } else if 0xe0 <= b && b <= 0xef {
        3
    } else if 0xf0 <= b && b <= 0xf7 {
        4
    } else {
        0
    }
}

/// Re-validates a buffer cut from a previously validated one by checking
/// a bounded window at each edge; exact on true subranges.
pub(crate) fn utf8_validate_subrange(buf: &[u8]) -> (r: Result<(), (usize, Option<usize>)>)
    ensures
        r is Ok <==> utf8_boundary_ok(buf@),
        r is Err ==> (r->Err_0).0 as int == utf8_sub_err_pos(buf@),
        r is Err ==> match (r->Err_0).1 {
            Some(n) => utf8_sub_err_len(buf@) == Some(n as int),
            None => utf8_sub_err_len(buf@) is None,
        },
{
    let n = buf.len();
    if n == 0 {
        return Ok(());
    }
    let b0 = buf[0];
    if 0x80 <= b0 && b0 <= 0xbf {
        return Err((0, Some(1)));
    }
    let b_last = buf[n - 1];
    if !(0x80 <= b_last && b_last <= 0xbf) {
        if utf8_lead_width_exec(b_last) == 1 {
            return Ok(());
        } else {
            return Err((n, None));
        }
    }
    if n >= 2 {
        let b = buf[n - 2];
        if !(0x80 <= b && b <= 0xbf) {
            if utf8_lead_width_exec(b) == 2 {
                return Ok(());
            } else {
                return Err((n, None));
            }
        }
    } else {
        return Err((n, None));
    }
    if n >= 3 {
        let b = buf[n - 3];
        if !(0x80 <= b && b <= 0xbf) {
            if utf8_lead_width_exec(b) == 3 {
                return Ok(());
            } else {
                return Err((n, None));
            }
        }
    } else {
        return Err((n, None));
    }
    if n >= 4 {
        let b = buf[n - 4];
        if !(0x80 <= b && b <= 0xbf) {
            if utf8_lead_width_exec(b) == 4 {
                return Ok(());
            } else {
                return Err((n, None));
            }
        }
    }
    Err((n, None))
}

/// Relies on char::from_u32 of std: a Unicode scalar value (at most
/// 0x10FFFF and not a surrogate) converts to the char with that value, and
/// any other value converts to none.
pub assume_specification[ char::from_u32 ](v: u32) -> (r: Option<char>)
    ensures
        r is Some <==> is_scalar(v),
        r is Some ==> r->0 as u32 == v,
;

/// The reference forward decoder: the first scalar of the buffer and its
/// width, or none when the head is not a well-formed scalar encoding.
pub open spec fn utf8_decode_first(s: Seq<u8>) -> Option<(char, int)> {
    if s.len() > 0 && utf8_strict_width(s) != 0 {
        Some((decode_first_codepoint(s) as char, utf8_strict_width(s)))
    } else {
        None
    }
}

/// Units the backward scan would consume: the distance from the end to the
/// nearest non-continuation byte, or zero when none lies within reach.
pub open spec fn utf8_back_width(s: Seq<u8>) -> int {
    let n = s.len() as int;
    if n >= 1 && !is_continuation_byte(s[n - 1]) {
        1
    } else if n >= 2 && !is_continuation_byte(s[n - 2]) {
        2
    } else if n >= 3 && !is_continuation_byte(s[n - 3]) {
        3
    } else if n >= 4 && !is_continuation_byte(s[n - 4]) {
        4
    } else {
        0
    }
}

/// The reference backward decoder: the last scalar of the buffer and its
/// width, or none when the tail is not a well-formed scalar encoding.
pub open spec fn utf8_decode_last(s: Seq<u8>) -> Option<(char, int)> {
    let k = utf8_back_width(s);
    if k == 0 {
        None
    } else {
        let w = s.subrange(s.len() - k, s.len() as int);
        if utf8_strict_width(w) == k {
            Some((decode_first_codepoint(w) as char, k))
        } else {
            None
        }
    }
}

/// On a non-empty well-formed buffer the forward decoder consumes a whole
/// leading scalar whose re-encoding reproduces the consumed bytes, and
/// leaves a well-formed remainder.
pub proof fn lemma_decode_first_valid(s: Seq<u8>)
    requires
        valid_utf8(s),
        s.len() > 0,
    ensures
        match utf8_decode_first(s) {
            Some(p) => {
                &&& 1 <= p.1 <= s.len()
                &&& encode_scalar(p.0 as u32) == s.subrange(0, p.1)
                &&& valid_utf8(s.subrange(p.1, s.len() as int))
                &&& is_char_boundary(s, p.1)
            },
            None => false,
        },
{
    lemma_strict_first(s);
    lemma_valid_first_len(s);
    let lf = length_of_first_scalar(s);
    decode_utf8_first_scalar(s);
    char_is_scalar((decode_first_scalar(s) as char));
    char_u32_cast((decode_first_scalar(s) as char), (decode_first_scalar(s) as char) as u32);
    assert(take_first_scalar(s) =~= s.subrange(0, lf));
    assert(pop_first_scalar(s) =~= s.subrange(lf, s.len() as int));
    assert(is_char_boundary(s, lf)) by {
        assert(is_char_boundary(pop_first_scalar(s), 0));
    }
    let c = decode_first_scalar(s) as char;
    assert(c as u32 == decode_first_scalar(s)) by {
        lemma_strict_first(s);
        char_u32_cast(c, decode_first_scalar(s));
    }
}

/// On a non-empty well-formed buffer the backward decoder consumes a whole
/// trailing scalar whose re-encoding reproduces the consumed bytes, and
/// leaves a well-formed prefix.
pub proof fn lemma_decode_last_valid(s: Seq<u8>)
    requires
        valid_utf8(s),
        s.len() > 0,
    ensures
        match utf8_decode_last(s) {
            Some(p) => {
                &&& 1 <= p.1 <= s.len()
                &&& encode_scalar(p.0 as u32) == s.subrange(s.len() - p.1, s.len() as int)
                &&& valid_utf8(s.subrange(0, s.len() - p.1))
                &&& is_char_boundary(s, s.len() - p.1)
            },
            None => false,
        },
{
    lemma_valid_tail_ok(s);
    lemma_valid_first_len(s);
    let n = s.len() as int;
    let k = utf8_back_width(s);
    assert(1 <= k <= n && !is_continuation_byte(s[n - k]) && utf8_lead_width(s[n - k]) == k);
    vstd::utf8::is_char_boundary_iff_not_is_continuation_byte(s, n - k);
    assert(is_char_boundary(s, n - k));
    vstd::utf8::valid_utf8_split(s, n - k);
    let v = s.subrange(n - k, n);
    assert(valid_utf8(v) && v.len() == k);
    lemma_valid_first_len(v);
    assert(v[0] == s[n - k]);
    assert(length_of_first_scalar(v) == k);
    lemma_strict_first(v);
    assert(utf8_strict_width(v) == k);
    decode_utf8_first_scalar(v);
    assert(take_first_scalar(v) =~= v);
    let c = decode_first_scalar(v) as char;
    char_u32_cast(c, decode_first_scalar(v));
}

/// Round trip: decoding an encoded scalar yields the scalar and its width.
pub proof fn lemma_utf8_round_trip(c: char)
    ensures
        1 <= encode_scalar(c as u32).len() <= 4,
        valid_utf8(encode_scalar(c as u32)),
        utf8_decode_first(encode_scalar(c as u32)) == Some(
            (c, encode_scalar(c as u32).len() as int),
        ),
{
    let chars = seq![c];
    encode_utf8_first_scalar(chars);
    encode_utf8_valid_utf8(chars);
    char_is_scalar(c);
    let bytes = encode_utf8(chars);
    assert(bytes =~= encode_scalar(c as u32) + encode_utf8(chars.drop_first()));
    assert(encode_utf8(chars.drop_first()) =~= Seq::<u8>::empty());
    assert(bytes =~= encode_scalar(c as u32));
    lemma_strict_first(bytes);
    assert(utf8_strict_width(bytes) == encode_scalar(c as u32).len());
    char_u32_cast(c, c as u32);
}

/// Decodes the first scalar of a byte buffer, returning it and the number
/// of bytes consumed.
pub(crate) fn utf8_decode(buf: &[u8]) -> (r: Option<(char, usize)>)
    ensures
        r is Some <==> utf8_decode_first(buf@) is Some,
        r is Some ==> utf8_decode_first(buf@) == Some(((r->0).0, (r->0).1 as int)),
{
    if buf.len() == 0 {
        return None;
    }
    proof {
        assert(buf@.skip(0) =~= buf@);
    }
    match utf8_step(buf, 0) {
        Ok(p) => {
            proof {
                lemma_strict_first(buf@);
            }
            match char::from_u32(p.0) {
                Some(c) => {
                    proof {
                        char_u32_cast(c, p.0);
                    }
                    Some((c, p.1))
                },
                None => {
                    proof {
                        assert(false);
                    }
                    None
                },
            }
        },
        Err(_) => None,
    }
}

/// Decodes the last scalar of a byte buffer, returning it and the number
/// of bytes consumed from the end.
pub(crate) fn utf8_decode_back(buf: &[u8]) -> (r: Option<(char, usize)>)
    ensures
        r is Some <==> utf8_decode_last(buf@) is Some,
        r is Some ==> utf8_decode_last(buf@) == Some(((r->0).0, (r->0).1 as int)),
{
    let n = buf.len();
    let k: usize = if n >= 1 && !(0x80 <= buf[n - 1] && buf[n - 1] <= 0xbf) {
        1
    } else if n >= 2 && !(0x80 <= buf[n - 2] && buf[n - 2] <= 0xbf) {
        2
    } else if n >= 3 && !(0x80 <= buf[n - 3] && buf[n - 3] <= 0xbf) {
        3
    } else if n >= 4 && !(0x80 <= buf[n - 4] && buf[n - 4] <= 0xbf) {
        4
    } else {
        0
    };
    proof {
        assert(k as int == utf8_back_width(buf@));
    }
    if k == 0 {
        return None;
    }
    proof {
        assert(buf@.skip((n - k) as int) =~= buf@.subrange(buf@.len() - k, buf@.len() as int));
    }
    match utf8_step(buf, n - k) {
        Ok(p) => {
            if p.1 == k {
                proof {
                    lemma_strict_first(buf@.skip((n - k) as int));
                }
                match char::from_u32(p.0) {
                    Some(c) => {
                        proof {
                            char_u32_cast(c, p.0);
                        }
                        Some((c, k))
                    },
                    None => {
                        proof {
                            assert(false);
                        }
                        None
                    },
                }
            } else {
                None
            }
        },
        Err(_) => None,
    }
}

/// Encodes one scalar as its UTF-8 byte sequence.
pub(crate) fn utf8_encode(c: char) -> (r: Vec<u8>)
    ensures
        r@ == encode_scalar(c as u32),
{
    proof {
        char_is_scalar(c);
    }
    let cp = c as u32;
    let mut v: Vec<u8> = Vec::new();
    if cp <= 0x7f {
        v.push((cp & 0x7f) as u8);
        proof {
            assert(v@ =~= encode_scalar(c as u32));
        }
    } else if cp <= 0x7ff {
        v.push(0xc0 | (((cp >> 6u32) & 0x1f) as u8));
        v.push(0x80 | ((cp & 0x3f) as u8));
        proof {
            assert(v@ =~= encode_scalar(c as u32));
        }
    } else if cp <= 0xffff {
        v.push(0xe0 | (((cp >> 12u32) & 0x0f) as u8));
        v.push(0x80 | (((cp >> 6u32) & 0x3f) as u8));
        v.push(0x80 | ((cp & 0x3f) as u8));
        proof {
            assert(v@ =~= encode_scalar(c as u32));
        }
    } else {
        v.push(0xf0 | (((cp >> 18u32) & 0x07) as u8));
        v.push(0x80 | (((cp >> 12u32) & 0x3f) as u8));
        v.push(0x80 | (((cp >> 6u32) & 0x3f) as u8));
        v.push(0x80 | ((cp & 0x3f) as u8));
        proof {
            assert(v@ =~= encode_scalar(c as u32));
        }
    }
    v
}

/// The number of bytes the UTF-8 encoding of `c` occupies.
pub(crate) fn utf8_encoding_len(c: char) -> (n: usize)
    ensures
        n as int == encode_scalar(c as u32).len(),
{
    proof {
        char_is_scalar(c);
    }
    let cp = c as u32;
    if cp <= 0x7f {
        1
    } else if cp <= 0x7ff {
        2
    } else if cp <= 0xffff {
        3
    } else {
        4
    }
}

} // verus!
