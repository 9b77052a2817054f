//! The UTF-16 grammar: surrogate pairing, well-formedness, scalar
//! decode/encode, error positions, and the cheap boundary re-check.
use vstd::prelude::*;
use vstd::arithmetic::div_mod::lemma_fundamental_div_mod;

verus! {

/// True when `u` is a high (leading) surrogate.
pub open spec fn is_high_surrogate(u: u16) -> bool {
    0xd800 <= u <= 0xdbff
}

/// True when `u` is a low (trailing) surrogate.
pub open spec fn is_low_surrogate(u: u16) -> bool {
    0xdc00 <= u <= 0xdfff
}

/// Width in units of the scalar encoding at the head of `s`, or zero when
/// the head is malformed (a lone low surrogate or an unpaired high one).
pub open spec fn utf16_first_width(s: Seq<u16>) -> int
    recommends
        s.len() > 0,
{
    if is_high_surrogate(s[0]) {
        if s.len() >= 2 && is_low_surrogate(s[1]) {
            2
        } else {
            0
        }
    } else if is_low_surrogate(s[0]) {
        0
    } else {
        1
    }
}

/// The scalar value encoded at the head of `s`, assuming the head is
/// well-formed.
pub open spec fn utf16_first_scalar(s: Seq<u16>) -> int
    recommends
        s.len() > 0,
        utf16_first_width(s) != 0,
{
    if is_high_surrogate(s[0]) {
        0x10000 + (s[0] - 0xd800) * 0x400 + (s[1] - 0xdc00)
    } else {
        s[0] as int
    }
}

/// True when the given unit sequence is well-formed UTF-16: every high
/// surrogate is immediately followed by a low one, and no low surrogate
/// stands alone.
pub open spec fn valid_utf16(s: Seq<u16>) -> bool
    decreases s.len(),
{
    s.len() == 0 || {
        let w = utf16_first_width(s);
        w != 0 && valid_utf16(s.skip(w))
    }
}

/// The UTF-16 encoding of one scalar value: one unit below 0x10000, else
/// a surrogate pair.
pub open spec fn utf16_encode_scalar(cp: int) -> Seq<u16>
    recommends
        vstd::utf8::is_scalar(cp as u32),
{
    if cp < 0x10000 {
        seq![cp as u16]
    } else {
        seq![
            (0xd800 + (cp - 0x10000) / 0x400) as u16,
            (0xdc00 + (cp - 0x10000) % 0x400) as u16,
        ]
    }
}

/// True when `i` falls on a scalar boundary of the well-formed sequence
/// `s`: every position except the trailing half of a surrogate pair.
pub open spec fn utf16_is_boundary(s: Seq<u16>, i: int) -> bool {
    0 <= i <= s.len() && (i == s.len() || !is_low_surrogate(s[i]))
}

/// What the cheap subrange re-check tests: the buffer neither starts with
/// a low surrogate nor ends with a high one.
pub open spec fn utf16_boundary_ok(s: Seq<u16>) -> bool {
    s.len() == 0 || (!is_low_surrogate(s[0]) && !is_high_surrogate(s[s.len() - 1]))
}

/// Position reported by a failed re-check: the lone low surrogate at the
/// head, or the unpaired high surrogate at the tail.
pub open spec fn utf16_sub_err_pos(s: Seq<u16>) -> int
    recommends
        !utf16_boundary_ok(s),
{
    if s.len() > 0 && is_low_surrogate(s[0]) {
        0
    } else {
        s.len() - 1
    }
}

/// Defective length reported by a failed re-check: one for a lone low
/// surrogate at the head, none for an unpaired high surrogate at the tail.
pub open spec fn utf16_sub_err_len(s: Seq<u16>) -> Option<int>
    recommends
        !utf16_boundary_ok(s),
{
    if s.len() > 0 && is_low_surrogate(s[0]) {
        Some(1)
    } else {
        None
    }
}

/// Position of the first defective unit of a malformed buffer.
pub open spec fn utf16_err_pos(s: Seq<u16>) -> int
    recommends
        !valid_utf16(s),
    decreases s.len(),
{
    if s.len() == 0 {
        0
    } else {
        let w = utf16_first_width(s);
        if w != 0 {
            w + utf16_err_pos(s.skip(w))
        } else {
            0
        }
    }
}

/// Defective length reported for a malformed buffer: one for a lone low
/// surrogate, two for a high surrogate followed by the wrong unit, none
/// for a high surrogate at the very end.
pub open spec fn utf16_err_len(s: Seq<u16>) -> Option<int>
    recommends
        !valid_utf16(s),
    decreases s.len(),
{
    if s.len() == 0 {
        None
    } else {
        let w = utf16_first_width(s);
        if w != 0 {
            utf16_err_len(s.skip(w))
        } else if is_low_surrogate(s[0]) {
            Some(1)
        } else if s.len() < 2 {
            None
        } else {
            Some(2)
        }
    }
}

/// In a well-formed sequence a low surrogate is always the second unit of
/// a pair: a high surrogate stands right before it.
pub proof fn lemma_low_preceded_by_high(s: Seq<u16>, p: int)
    requires
        valid_utf16(s),
        0 <= p < s.len(),
        is_low_surrogate(s[p]),
    ensures
        p >= 1,
        is_high_surrogate(s[p - 1]),
    decreases s.len(),
{
    let w = utf16_first_width(s);
    if p >= w {
        lemma_low_preceded_by_high(s.skip(w), p - w);
        assert(s.skip(w)[p - w] == s[p]);
        assert(s.skip(w)[p - w - 1] == s[p - 1]);
    }
}

/// Splitting a well-formed sequence at a scalar boundary leaves two
/// well-formed halves.
pub proof fn lemma_utf16_split(s: Seq<u16>, i: int)
    requires
        valid_utf16(s),
        utf16_is_boundary(s, i),
    ensures
        valid_utf16(s.subrange(0, i)),
        valid_utf16(s.subrange(i, s.len() as int)),
    decreases s.len(),
{
    if i == 0 {
        assert(s.subrange(0, 0) =~= Seq::<u16>::empty());
        assert(s.subrange(0, s.len() as int) =~= s);
    } else {
        let w = utf16_first_width(s);
        if i < w {
            assert(w == 2 && i == 1);
            assert(is_low_surrogate(s[1]));
            assert(!utf16_is_boundary(s, i));
        } else {
            let rest = s.skip(w);
            assert(rest.len() < s.len());
            if i < s.len() {
                assert(rest[i - w] == s[i]);
            }
            lemma_utf16_split(rest, i - w);
            assert(s.subrange(i, s.len() as int) =~= rest.subrange(i - w, rest.len() as int));
            let left = s.subrange(0, i);
            assert(left[0] == s[0]);
            if w == 2 {
                assert(left[1] == s[1]);
            }
            assert(utf16_first_width(left) == w);
            assert(left.skip(w) =~= rest.subrange(0, i - w));
        }
    }
}

/// Concatenation closure: two well-formed sequences concatenate to a
/// well-formed sequence.
pub proof fn lemma_utf16_concat(a: Seq<u16>, b: Seq<u16>)
    requires
        valid_utf16(a),
        valid_utf16(b),
    ensures
        valid_utf16(a + b),
    decreases a.len(),
{
    if a.len() == 0 {
        assert(a + b =~= b);
    } else {
        let w = utf16_first_width(a);
        assert((a + b)[0] == a[0]);
        if w == 2 {
            assert((a + b)[1] == a[1]);
        }
        assert(utf16_first_width(a + b) == w);
        lemma_utf16_concat(a.skip(w), b);
        assert((a + b).skip(w) =~= a.skip(w) + b);
    }
}

/// A well-formed sequence always passes the cheap re-check.
pub proof fn lemma_utf16_valid_boundary_ok(s: Seq<u16>)
    requires
        valid_utf16(s),
    ensures
        utf16_boundary_ok(s),
    decreases s.len(),
{
    if s.len() > 0 {
        let w = utf16_first_width(s);
        if s.len() == w {
            if w == 2 {
                assert(is_low_surrogate(s[1]) && !is_high_surrogate(s[1]));
            }
        } else {
            lemma_utf16_valid_boundary_ok(s.skip(w));
            assert(s.skip(w)[s.len() - w - 1] == s[s.len() - 1]);
        }
    }
}

/// On a subrange of a well-formed sequence, passing the cheap re-check
/// implies the subrange is itself well-formed.
pub proof fn lemma_utf16_boundary_ok_subrange(s: Seq<u16>, i: int, j: int)
    requires
        valid_utf16(s),
        0 <= i <= j <= s.len(),
        utf16_boundary_ok(s.subrange(i, j)),
    ensures
        valid_utf16(s.subrange(i, j)),
{
    let t = s.subrange(i, j);
    if t.len() == 0 {
    } else {
        assert(t[0] == s[i]);
        assert(utf16_is_boundary(s, i));
        lemma_utf16_split(s, i);
        let u = s.subrange(i, s.len() as int);
        assert(utf16_is_boundary(s, j)) by {
            if j < s.len() && is_low_surrogate(s[j]) {
                lemma_low_preceded_by_high(s, j);
                assert(s[j - 1] == t[j - i - 1]);
            }
        }
        lemma_utf16_split(s, j);
        let left = s.subrange(0, j);
        assert(utf16_is_boundary(left, i)) by {
            assert(left[i] == s[i]);
        }
        lemma_utf16_split(left, i);
        assert(left.subrange(i, j) =~= t);
    }
}

/// A non-empty well-formed window inside a well-formed sequence sits on
/// scalar boundaries.
pub proof fn lemma_utf16_valid_window(s: Seq<u16>, i: int, j: int)
    requires
        valid_utf16(s),
        0 <= i < j <= s.len(),
        valid_utf16(s.subrange(i, j)),
    ensures
        utf16_is_boundary(s, i),
        utf16_is_boundary(s, j),
{
    let t = s.subrange(i, j);
    assert(t[0] == s[i]);
    assert(!is_low_surrogate(s[i]));
    if j < s.len() && is_low_surrogate(s[j]) {
        lemma_low_preceded_by_high(s, j);
        lemma_utf16_valid_boundary_ok(t);
        assert(t[j - i - 1] == s[j - 1]);
    }
}

/// A zero unit inside a well-formed sequence is a whole scalar:
/// boundaries fall on both of its sides.
pub proof fn lemma_utf16_zero_boundary(s: Seq<u16>, i: int)
    requires
        valid_utf16(s),
        0 <= i < s.len(),
        s[i] == 0,
    ensures
        utf16_is_boundary(s, i),
        utf16_is_boundary(s, i + 1),
{
    if i + 1 < s.len() && is_low_surrogate(s[i + 1]) {
        lemma_low_preceded_by_high(s, i + 1);
    }
}

/// The reference forward decoder: the first scalar of the buffer and its
/// width, or none when the head is malformed.
pub open spec fn utf16_decode_first(s: Seq<u16>) -> Option<(char, int)> {
    if s.len() > 0 && utf16_first_width(s) != 0 {
        Some(((utf16_first_scalar(s) as u32) as char, utf16_first_width(s)))
    } else {
        None
    }
}

/// The reference backward decoder: the last scalar of the buffer and its
/// width, or none when the tail is malformed.
pub open spec fn utf16_decode_last(s: Seq<u16>) -> Option<(char, int)> {
    let n = s.len() as int;
    if n == 0 {
        None
    } else if is_low_surrogate(s[n - 1]) {
        if n >= 2 && is_high_surrogate(s[n - 2]) {
            Some(((utf16_first_scalar(s.subrange(n - 2, n)) as u32) as char, 2))
        } else {
            None
        }
    } else if is_high_surrogate(s[n - 1]) {
        None
    } else {
        Some(((s[n - 1] as u32) as char, 1))
    }
}

/// A well-formed head scalar is a Unicode scalar value, and re-encoding it
/// reproduces the consumed units.
pub proof fn lemma_utf16_first_scalar(s: Seq<u16>)
    requires
        s.len() > 0,
        utf16_first_width(s) != 0,
    ensures
        vstd::utf8::is_scalar(utf16_first_scalar(s) as u32),
        utf16_encode_scalar(utf16_first_scalar(s)) == s.subrange(0, utf16_first_width(s)),
        (utf16_first_scalar(s) as u32) as int == utf16_first_scalar(s),
{
    let w = utf16_first_width(s);
    let cp = utf16_first_scalar(s);
    if w == 2 {
        let hi = s[0] as int;
        let lo = s[1] as int;
        assert(cp == 0x10000 + (hi - 0xd800) * 0x400 + (lo - 0xdc00));
        assert(0x10000 <= cp <= 0x10ffff);
        let x = cp - 0x10000;
        assert(x == (hi - 0xd800) * 0x400 + (lo - 0xdc00));
        assert(x / 0x400 == hi - 0xd800 && x % 0x400 == lo - 0xdc00) by (nonlinear_arith)
            requires
                x == (hi - 0xd800) * 0x400 + (lo - 0xdc00),
                0 <= hi - 0xd800 < 0x400,
                0 <= lo - 0xdc00 < 0x400,
        ;
        assert(utf16_encode_scalar(cp) =~= s.subrange(0, 2));
    } else {
        assert(!(0xd800 <= cp <= 0xdfff) && 0 <= cp <= 0xffff);
        assert(utf16_encode_scalar(cp) =~= s.subrange(0, 1));
    }
}

/// Every scalar's encoding is one or two units and well-formed; the second
/// unit of a pair is a low surrogate and the first a high one.
pub proof fn lemma_utf16_encode_wf(cp: int)
    requires
        vstd::utf8::is_scalar(cp as u32),
        0 <= cp <= 0x10ffff,
    ensures
        1 <= utf16_encode_scalar(cp).len() <= 2,
        valid_utf16(utf16_encode_scalar(cp)),
        utf16_first_width(utf16_encode_scalar(cp)) == utf16_encode_scalar(cp).len(),
        utf16_first_scalar(utf16_encode_scalar(cp)) == cp,
{
    let e = utf16_encode_scalar(cp);
    if cp < 0x10000 {
        assert(e.len() == 1);
        assert(e[0] == cp as u16);
        assert((cp as u16) as int == cp);
        assert(cp as u32 as int == cp);
        assert(!(0xd800 <= cp <= 0xdfff));
        assert(utf16_first_width(e) == 1);
        assert(e.skip(1) =~= Seq::<u16>::empty());
        assert(valid_utf16(e.skip(1)));
        assert(valid_utf16(e));
    } else {
        let x = cp - 0x10000;
        assert(0 <= x <= 0xfffff);
        assert(0 <= x / 0x400 <= 0x3ff && 0 <= x % 0x400 < 0x400) by (nonlinear_arith)
            requires
                0 <= x <= 0xfffff,
        ;
        assert(e.len() == 2);
        assert(e[0] == (0xd800 + x / 0x400) as u16);
        assert(e[1] == (0xdc00 + x % 0x400) as u16);
        assert(e[0] as int == 0xd800 + x / 0x400);
        assert(e[1] as int == 0xdc00 + x % 0x400);
        assert(is_high_surrogate(e[0]));
        assert(is_low_surrogate(e[1]));
        assert(utf16_first_width(e) == 2);
        assert(e.skip(2) =~= Seq::<u16>::empty());
        assert(valid_utf16(e.skip(2)));
        assert(valid_utf16(e));
        lemma_fundamental_div_mod(x, 0x400);
        assert(utf16_first_scalar(e) == 0x10000 + (x / 0x400) * 0x400 + x % 0x400);
    }
}

/// On a non-empty well-formed buffer the forward decoder consumes a whole
/// leading scalar whose re-encoding reproduces the consumed units, and
/// leaves a well-formed remainder.
pub proof fn lemma_utf16_decode_first_valid(s: Seq<u16>)
    requires
        valid_utf16(s),
        s.len() > 0,
    ensures
        match utf16_decode_first(s) {
            Some(p) => {
                &&& 1 <= p.1 <= s.len()
                &&& utf16_encode_scalar(p.0 as u32 as int) == s.subrange(0, p.1)
                &&& valid_utf16(s.subrange(p.1, s.len() as int))
                &&& utf16_is_boundary(s, p.1)
            },
            None => false,
        },
{
    let w = utf16_first_width(s);
    lemma_utf16_first_scalar(s);
    let cp = utf16_first_scalar(s);
    let c = (cp as u32) as char;
    vstd::utf8::char_u32_cast(c, cp as u32);
    assert(s.subrange(w, s.len() as int) =~= s.skip(w));
    assert(utf16_is_boundary(s, w)) by {
        if w < s.len() && is_low_surrogate(s[w]) {
            lemma_low_preceded_by_high(s, w);
            assert(is_high_surrogate(s[w - 1]));
            if w == 1 {
                assert(utf16_first_width(s) == 2);
            } else {
                assert(is_low_surrogate(s[1]));
            }
        }
    }
}

/// On a non-empty well-formed buffer the backward decoder consumes a whole
/// trailing scalar whose re-encoding reproduces the consumed units, and
/// leaves a well-formed prefix.
pub proof fn lemma_utf16_decode_last_valid(s: Seq<u16>)
    requires
        valid_utf16(s),
        s.len() > 0,
    ensures
        match utf16_decode_last(s) {
            Some(p) => {
                &&& 1 <= p.1 <= s.len()
                &&& utf16_encode_scalar(p.0 as u32 as int) == s.subrange(
                    s.len() - p.1,
                    s.len() as int,
                )
                &&& valid_utf16(s.subrange(0, s.len() - p.1))
                &&& utf16_is_boundary(s, s.len() - p.1)
            },
            None => false,
        },
{
    let n = s.len() as int;
    lemma_utf16_valid_boundary_ok(s);
    assert(!is_high_surrogate(s[n - 1]));
    if is_low_surrogate(s[n - 1]) {
        lemma_low_preceded_by_high(s, n - 1);
        let t = s.subrange(n - 2, n);
        assert(t[0] == s[n - 2] && t[1] == s[n - 1]);
        assert(utf16_first_width(t) == 2);
        lemma_utf16_first_scalar(t);
        let cp = utf16_first_scalar(t);
        let c = (cp as u32) as char;
        vstd::utf8::char_u32_cast(c, cp as u32);
        assert(utf16_is_boundary(s, n - 2)) by {
            assert(!is_low_surrogate(s[n - 2]));
        }
        lemma_utf16_split(s, n - 2);
        assert(t.subrange(0, 2) =~= t);
    } else {
        let t = s.subrange(n - 1, n);
        assert(t[0] == s[n - 1]);
        assert(utf16_first_width(t) == 1);
        lemma_utf16_first_scalar(t);
        let cp = utf16_first_scalar(t);
        let c = (cp as u32) as char;
        vstd::utf8::char_u32_cast(c, cp as u32);
        assert(utf16_is_boundary(s, n - 1));
        lemma_utf16_split(s, n - 1);
        assert(t.subrange(0, 1) =~= t);
    }
}

/// Round trip: decoding an encoded scalar yields the scalar and its width.
pub proof fn lemma_utf16_round_trip(c: char)
    ensures
        1 <= utf16_encode_scalar(c as u32 as int).len() <= 2,
        valid_utf16(utf16_encode_scalar(c as u32 as int)),
        utf16_decode_first(utf16_encode_scalar(c as u32 as int)) == Some(
            (c, utf16_encode_scalar(c as u32 as int).len() as int),
        ),
{
    vstd::utf8::char_is_scalar(c);
    let cp = c as u32 as int;
    lemma_utf16_encode_wf(cp);
    let e = utf16_encode_scalar(cp);
    assert(utf16_first_scalar(e) == cp);
    vstd::utf8::char_u32_cast(c, c as u32);
}

/// The scalar sequence encoded in a well-formed UTF-16 buffer.
pub open spec fn utf16_decode_all(s: Seq<u16>) -> Seq<char>
    recommends
        valid_utf16(s),
    decreases s.len(),
    when valid_utf16(s)
{
    if s.len() == 0 {
        seq![]
    } else {
        seq![(utf16_first_scalar(s) as u32) as char] + utf16_decode_all(
            s.skip(utf16_first_width(s)),
        )
    }
}

/// The UTF-16 encoding of a scalar sequence.
pub open spec fn utf16_encode_all(chars: Seq<char>) -> Seq<u16>
    decreases chars.len(),
{
    if chars.len() == 0 {
        seq![]
    } else {
        utf16_encode_scalar(chars[0] as u32 as int) + utf16_encode_all(chars.drop_first())
    }
}

/// The encoding of any scalar sequence is well-formed, and decoding it
/// yields the sequence back: well-formedness captures exactly the buffers
/// some scalar sequence encodes to.
pub proof fn lemma_utf16_encode_all_decode_all(chars: Seq<char>)
    ensures
        valid_utf16(utf16_encode_all(chars)),
        utf16_decode_all(utf16_encode_all(chars)) == chars,
    decreases chars.len(),
{
    if chars.len() == 0 {
        assert(utf16_decode_all(utf16_encode_all(chars)) =~= chars);
    } else {
        let c0 = chars[0];
        vstd::utf8::char_is_scalar(c0);
        let cp = c0 as u32 as int;
        lemma_utf16_encode_wf(cp);
        let head = utf16_encode_scalar(cp);
        let rest = utf16_encode_all(chars.drop_first());
        let e = utf16_encode_all(chars);
        assert(e =~= head + rest);
        lemma_utf16_encode_all_decode_all(chars.drop_first());
        lemma_utf16_concat(head, rest);
        assert(e[0] == head[0]);
        if head.len() == 2 {
            assert(e[1] == head[1]);
        }
        assert(utf16_first_width(e) == head.len());
        assert(utf16_first_scalar(e) == cp) by {
            if head.len() == 2 {
                assert(e[0] == head[0] && e[1] == head[1]);
            }
        }
        vstd::utf8::char_u32_cast(c0, c0 as u32);
        assert(e.skip(head.len() as int) =~= rest);
        assert(utf16_decode_all(e) =~= chars);
    }
}

/// Re-encoding the scalars decoded from a well-formed buffer reproduces
/// the buffer.
pub proof fn lemma_utf16_decode_all_encode_all(s: Seq<u16>)
    requires
        valid_utf16(s),
    ensures
        utf16_encode_all(utf16_decode_all(s)) == s,
    decreases s.len(),
{
    if s.len() == 0 {
        assert(utf16_encode_all(utf16_decode_all(s)) =~= s);
    } else {
        let w = utf16_first_width(s);
        lemma_utf16_first_scalar(s);
        let cp = utf16_first_scalar(s);
        let c = (cp as u32) as char;
        vstd::utf8::char_u32_cast(c, cp as u32);
        lemma_utf16_decode_all_encode_all(s.skip(w));
        let chars = utf16_decode_all(s);
        assert(chars[0] == c);
        assert(chars.drop_first() =~= utf16_decode_all(s.skip(w)));
        assert(utf16_encode_scalar(c as u32 as int) == s.subrange(0, w));
        assert(utf16_encode_all(chars) =~= s.subrange(0, w) + s.skip(w));
        assert(s.subrange(0, w) + s.skip(w) =~= s);
    }
}

/// Scans a whole unit buffer against the UTF-16 grammar. Succeeds exactly
/// on well-formed input; otherwise reports the position of the first
/// defective unit and its length, where determinable.
pub(crate) fn utf16_validate_range(buf: &[u16]) -> (r: Result<(), (usize, Option<usize>)>)
    ensures
        r is Ok <==> valid_utf16(buf@),
        r is Err ==> (r->Err_0).0 as int == utf16_err_pos(buf@),
        r is Err ==> match (r->Err_0).1 {
            Some(n) => utf16_err_len(buf@) == Some(n as int),
            None => utf16_err_len(buf@) is None,
        },
{
    let ghost s = buf@;
    let n = buf.len();
    let mut i: usize = 0;
    proof {
        assert(s.skip(0) =~= s);
    }
    while i < n
        invariant
            0 <= i <= n,
            n == s.len(),
            s == buf@,
            valid_utf16(s) <==> valid_utf16(s.skip(i as int)),
            !valid_utf16(s.skip(i as int)) ==> utf16_err_pos(s) == i + utf16_err_pos(
                s.skip(i as int),
            ),
            !valid_utf16(s.skip(i as int)) ==> utf16_err_len(s) == utf16_err_len(
                s.skip(i as int),
            ),
        decreases n - i,
    {
        let ghost t = s.skip(i as int);
        let u0 = buf[i];
        proof {
            assert(t[0] == s[i as int]);
        }
        if 0xd800 <= u0 && u0 <= 0xdbff {
            if i + 1 >= n {
                proof {
                    assert(utf16_first_width(t) == 0);
                }
                return Err((i, None));
            }
            let u1 = buf[i + 1];
            proof {
                assert(t[1] == s[i + 1]);
            }
            if !(0xdc00 <= u1 && u1 <= 0xdfff) {
                proof {
                    assert(utf16_first_width(t) == 0);
                }
                return Err((i, Some(2)));
            }
            proof {
                assert(utf16_first_width(t) == 2);
                assert(t.skip(2) =~= s.skip(i + 2));
            }
            i = i + 2;
        } else if 0xdc00 <= u0 && u0 <= 0xdfff {
            proof {
                assert(utf16_first_width(t) == 0);
            }
            return Err((i, Some(1)));
        } else {
            proof {
                assert(utf16_first_width(t) == 1);
                assert(t.skip(1) =~= s.skip(i + 1));
            }
            i = i + 1;
        }
    }
    proof {
        assert(s.skip(n as int) =~= Seq::<u16>::empty());
    }
    Ok(())
}

/// Re-validates a buffer cut from a previously validated one by checking
/// only its two edge units; exact on true subranges.
pub(crate) fn utf16_validate_subrange(buf: &[u16]) -> (r: Result<(), (usize, Option<usize>)>)
    ensures
        r is Ok <==> utf16_boundary_ok(buf@),
        r is Err ==> (r->Err_0).0 as int == utf16_sub_err_pos(buf@),
        r is Err ==> match (r->Err_0).1 {
            Some(n) => utf16_sub_err_len(buf@) == Some(n as int),
            None => utf16_sub_err_len(buf@) is None,
        },
{
    let n = buf.len();
    if n == 0 {
        return Ok(());
    }
    let first = buf[0];
    if 0xdc00 <= first && first <= 0xdfff {
        return Err((0, Some(1)));
    }
    let last = buf[n - 1];
    if 0xd800 <= last && last <= 0xdbff {
        return Err((n - 1, None));
    }
    Ok(())
}

/// Decodes the first scalar of a unit buffer, returning it and the number
/// of units consumed.
pub(crate) fn utf16_decode(buf: &[u16]) -> (r: Option<(char, usize)>)
    ensures
        r is Some <==> utf16_decode_first(buf@) is Some,
        r is Some ==> utf16_decode_first(buf@) == Some(((r->0).0, (r->0).1 as int)),
{
    if buf.len() == 0 {
        return None;
    }
    let u0 = buf[0];
    if 0xd800 <= u0 && u0 <= 0xdbff {
        if buf.len() < 2 {
            return None;
        }
        let u1 = buf[1];
        if !(0xdc00 <= u1 && u1 <= 0xdfff) {
            return None;
        }
        let cp: u32 = 0x10000 + ((u0 - 0xd800) as u32) * 0x400 + ((u1 - 0xdc00) as u32);
        proof {
            assert(cp as int == utf16_first_scalar(buf@));
            assert(vstd::utf8::is_scalar(cp));
        }
        match char::from_u32(cp) {
            Some(c) => {
                proof {
                    vstd::utf8::char_u32_cast(c, cp);
                }
                Some((c, 2))
            },
            None => {
                proof {
                    assert(false);
                }
                None
            },
        }
    } else if 0xdc00 <= u0 && u0 <= 0xdfff {
        None
    } else {
        let cp: u32 = u0 as u32;
        proof {
            assert(cp as int == utf16_first_scalar(buf@));
            assert(vstd::utf8::is_scalar(cp));
        }
        match char::from_u32(cp) {
            Some(c) => {
                proof {
                    vstd::utf8::char_u32_cast(c, cp);
                }
                Some((c, 1))
            },
            None => {
                proof {
                    assert(false);
                }
                None
            },
        }
    }
}

/// Decodes the last scalar of a unit buffer, returning it and the number
/// of units consumed from the end.
pub(crate) fn utf16_decode_back(buf: &[u16]) -> (r: Option<(char, usize)>)
    ensures
        r is Some <==> utf16_decode_last(buf@) is Some,
        r is Some ==> utf16_decode_last(buf@) == Some(((r->0).0, (r->0).1 as int)),
{
    let n = buf.len();
    if n == 0 {
        return None;
    }
    let last = buf[n - 1];
    if 0xdc00 <= last && last <= 0xdfff {
        if n < 2 {
            return None;
        }
        let prev = buf[n - 2];
        if !(0xd800 <= prev && prev <= 0xdbff) {
            return None;
        }
        let cp: u32 = 0x10000 + ((prev - 0xd800) as u32) * 0x400 + ((last - 0xdc00) as u32);
        proof {
            let t = buf@.subrange(buf@.len() - 2, buf@.len() as int);
            assert(t[0] == buf@[buf@.len() - 2] && t[1] == buf@[buf@.len() - 1]);
            assert(cp as int == utf16_first_scalar(t));
            assert(vstd::utf8::is_scalar(cp));
        }
        match char::from_u32(cp) {
            Some(c) => {
                proof {
                    vstd::utf8::char_u32_cast(c, cp);
                }
                Some((c, 2))
            },
            None => {
                proof {
                    assert(false);
                }
                None
            },
        }
    } else if 0xd800 <= last && last <= 0xdbff {
        None
    } else {
        let cp: u32 = last as u32;
        proof {
            assert(vstd::utf8::is_scalar(cp));
        }
        match char::from_u32(cp) {
            Some(c) => {
                proof {
                    vstd::utf8::char_u32_cast(c, cp);
                }
                Some((c, 1))
            },
            None => {
                proof {
                    assert(false);
                }
                None
            },
        }
    }
}

/// Encodes one scalar as its UTF-16 unit sequence.
pub(crate) fn utf16_encode(c: char) -> (r: Vec<u16>)
    ensures
        r@ == utf16_encode_scalar(c as u32 as int),
{
    proof {
        vstd::utf8::char_is_scalar(c);
    }
    let cp = c as u32;
    let mut v: Vec<u16> = Vec::new();
    if cp < 0x10000 {
        v.push(cp as u16);
        proof {
            assert(v@ =~= utf16_encode_scalar(c as u32 as int));
        }
    } else {
        let x = cp - 0x10000;
        proof {
            assert(0 <= x / 0x400 <= 0x3ff && 0 <= x % 0x400 < 0x400) by (nonlinear_arith)
                requires
                    0 <= x <= 0xfffff,
            ;
        }
        v.push(0xd800 + ((x / 0x400) as u16));
        v.push(0xdc00 + ((x % 0x400) as u16));
        proof {
            assert(v@ =~= utf16_encode_scalar(c as u32 as int));
        }
    }
    v
}

/// The number of units the UTF-16 encoding of `c` occupies.
pub(crate) fn utf16_encoding_len(c: char) -> (n: usize)
    ensures
        n as int == utf16_encode_scalar(c as u32 as int).len(),
{
    proof {
        vstd::utf8::char_is_scalar(c);
    }
    let cp = c as u32;
    if cp < 0x10000 {
        1
    } else {
        2
    }
}

} // verus!
