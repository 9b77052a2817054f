//! The pattern engine: matchers that locate a contiguous match span in a
//! validated sequence, scanning forward or backward. Scalar matchers
//! decode the haystack scalar by scalar; substring matchers slide a raw
//! unit window.
use vstd::prelude::*;
use vstd::slice::slice_subrange;
use crate::str::BasicStr;
use crate::traits::Char;
use crate::traits::CharTraits;
use crate::traits::DecodeRev;
use crate::traits::IntoChars;

verus! {

/// Shifts a match span right by `n` units.
pub open spec fn shift_span(r: Option<(int, int)>, n: int) -> Option<(int, int)> {
    match r {
        Some(p) => Some((p.0 + n, p.1 + n)),
        None => None,
    }
}

/// The reference forward scan of a scalar matcher: decode the haystack
/// scalar by scalar and return the unit span of the first scalar equal to
/// `c`.
pub open spec fn scalar_first_match<Traits: IntoChars>(c: char, s: Seq<Traits::Char>) -> Option<
    (int, int),
>
    decreases s.len(),
{
    if s.len() == 0 {
        None
    } else {
        match Traits::spec_decode(s) {
            Some(p) => if !(1 <= p.1 <= s.len()) {
                None
            } else if p.0 == c {
                Some((0, p.1))
            } else {
                shift_span(scalar_first_match::<Traits>(c, s.skip(p.1)), p.1)
            },
            None => None,
        }
    }
}

/// The reference backward scan of a scalar matcher: decode the haystack
/// backward scalar by scalar and return the unit span of the last scalar
/// equal to `c`.
pub open spec fn scalar_last_match<Traits: DecodeRev>(c: char, s: Seq<Traits::Char>) -> Option<
    (int, int),
>
    decreases s.len(),
{
    if s.len() == 0 {
        None
    } else {
        match Traits::spec_decode_back(s) {
            Some(p) => if !(1 <= p.1 <= s.len()) {
                None
            } else if p.0 == c {
                Some((s.len() - p.1, s.len() as int))
            } else {
                scalar_last_match::<Traits>(c, s.take(s.len() - p.1))
            },
            None => None,
        }
    }
}

/// The reference forward scan of a substring matcher: the span of the
/// first window at or after `i` that equals `w`.
pub open spec fn substr_first_from<C>(s: Seq<C>, w: Seq<C>, i: int) -> Option<(int, int)>
    decreases s.len() - i + 1,
{
    if !(0 <= i && i + w.len() <= s.len()) {
        None
    } else if s.subrange(i, i + w.len()) == w {
        Some((i, i + w.len()))
    } else {
        substr_first_from(s, w, i + 1)
    }
}

/// The reference backward scan of a substring matcher: the span of the
/// last window at or before `i` that equals `w`.
pub open spec fn substr_last_from<C>(s: Seq<C>, w: Seq<C>, i: int) -> Option<(int, int)>
    decreases i,
{
    if !(0 <= i && i + w.len() <= s.len()) {
        None
    } else if s.subrange(i, i + w.len()) == w {
        Some((i, i + w.len()))
    } else if i == 0 {
        None
    } else {
        substr_last_from(s, w, i - 1)
    }
}

/// A matcher that can locate the first match of itself in a validated
/// sequence. A returned span lies in bounds, cuts the haystack into three
/// well-formed pieces, and agrees exactly with the matcher's reference
/// scan.
pub trait Pattern<Traits: CharTraits>: Sized {
    /// The matcher's own invariant (a substring matcher carries a
    /// validated needle).
    spec fn pat_wf(&self) -> bool;

    /// The reference scan this matcher is held to.
    spec fn first_match_spec(&self, s: Seq<Traits::Char>) -> Option<(int, int)>;

    /// Finds the unit span of the first match of `self` in `slice`.
    fn first_match(&self, slice: &[Traits::Char]) -> (r: Option<(usize, usize)>)
        requires
            self.pat_wf(),
            Traits::spec_valid(slice@),
        ensures
            r is Some <==> self.first_match_spec(slice@) is Some,
            r is Some ==> self.first_match_spec(slice@) == Some(
                ((r->0).0 as int, (r->0).1 as int),
            ),
            r is Some ==> (r->0).0 <= (r->0).1 <= slice@.len(),
            r is Some ==> Traits::spec_valid(slice@.subrange(0, (r->0).0 as int))
                && Traits::spec_valid(slice@.subrange((r->0).0 as int, (r->0).1 as int))
                && Traits::spec_valid(slice@.subrange((r->0).1 as int, slice@.len() as int)),
    ;
}

/// A matcher that can locate the last match of itself in a validated
/// sequence, with the same guarantees as the forward direction.
pub trait RevPattern<Traits: CharTraits>: Sized {
    /// The matcher's own invariant.
    spec fn rev_pat_wf(&self) -> bool;

    /// The reference scan this matcher is held to.
    spec fn last_match_spec(&self, s: Seq<Traits::Char>) -> Option<(int, int)>;

    /// Finds the unit span of the last match of `self` in `slice`.
    fn last_match(&self, slice: &[Traits::Char]) -> (r: Option<(usize, usize)>)
        requires
            self.rev_pat_wf(),
            Traits::spec_valid(slice@),
        ensures
            r is Some <==> self.last_match_spec(slice@) is Some,
            r is Some ==> self.last_match_spec(slice@) == Some(
                ((r->0).0 as int, (r->0).1 as int),
            ),
            r is Some ==> (r->0).0 <= (r->0).1 <= slice@.len(),
            r is Some ==> Traits::spec_valid(slice@.subrange(0, (r->0).0 as int))
                && Traits::spec_valid(slice@.subrange((r->0).0 as int, (r->0).1 as int))
                && Traits::spec_valid(slice@.subrange((r->0).1 as int, slice@.len() as int)),
    ;
}

/// A matcher that can scan in both directions, so that a split sequence
/// can be peeled from either end.
pub trait BidirectionalPattern<Traits: CharTraits>: Pattern<Traits> + RevPattern<Traits> {

}

impl<Traits: IntoChars> Pattern<Traits> for char {
    open spec fn pat_wf(&self) -> bool {
        true
    }

    open spec fn first_match_spec(&self, s: Seq<Traits::Char>) -> Option<(int, int)> {
        scalar_first_match::<Traits>(*self, s)
    }

    fn first_match(&self, slice: &[Traits::Char]) -> (r: Option<(usize, usize)>) {
        let ghost s = slice@;
        let n = slice.len();
        let mut i: usize = 0;
        proof {
            assert(s.skip(0) =~= s);
            assert(s.subrange(0, 0) =~= Seq::<Traits::Char>::empty());
            Traits::lemma_valid_empty();
        }
        while i < n
            invariant
                0 <= i <= n,
                n == s.len(),
                s == slice@,
                Traits::spec_valid(s),
                Traits::spec_valid(s.subrange(0, i as int)),
                Traits::spec_valid(s.skip(i as int)),
                scalar_first_match::<Traits>(*self, s) == shift_span(
                    scalar_first_match::<Traits>(*self, s.skip(i as int)),
                    i as int,
                ),
            decreases n - i,
        {
            let ghost t = s.skip(i as int);
            proof {
                Traits::lemma_decode_valid(t);
            }
            let tail = slice_subrange(slice, i, n);
            match Traits::decode_buf(tail) {
                Some(p) => {
                    let c = p.0;
                    let w = p.1;
                    proof {
                        Traits::lemma_encode_wf(c);
                        assert(Traits::spec_encode(c) =~= s.subrange(i as int, i + w));
                    }
                    if c == *self {
                        proof {
                            assert(scalar_first_match::<Traits>(*self, t) == Some(
                                (0int, w as int),
                            ));
                            assert(s.subrange(i + w, s.len() as int) =~= t.subrange(
                                w as int,
                                t.len() as int,
                            ));
                        }
                        return Some((i, i + w));
                    }
                    proof {
                        assert(t.skip(w as int) =~= s.skip(i + w));
                        assert(Traits::spec_valid(s.subrange(0, i + w))) by {
                            Traits::lemma_valid_concat(
                                s.subrange(0, i as int),
                                Traits::spec_encode(c),
                            );
                            assert(s.subrange(0, i + w) =~= s.subrange(0, i as int)
                                + Traits::spec_encode(c));
                        }
                        assert(s.subrange(i + w, s.len() as int) =~= t.subrange(
                            w as int,
                            t.len() as int,
                        ));
                    }
                    i = i + w;
                },
                None => {
                    proof {
                        assert(false);
                    }
                },
            }
        }
        proof {
            assert(s.skip(n as int) =~= Seq::<Traits::Char>::empty());
        }
        None
    }
}

impl<Traits: DecodeRev> RevPattern<Traits> for char {
    open spec fn rev_pat_wf(&self) -> bool {
        true
    }

    open spec fn last_match_spec(&self, s: Seq<Traits::Char>) -> Option<(int, int)> {
        scalar_last_match::<Traits>(*self, s)
    }

    fn last_match(&self, slice: &[Traits::Char]) -> (r: Option<(usize, usize)>) {
        let ghost s = slice@;
        let n = slice.len();
        let mut i: usize = n;
        proof {
            assert(s.take(n as int) =~= s);
            assert(s.subrange(n as int, n as int) =~= Seq::<Traits::Char>::empty());
            Traits::lemma_valid_empty();
        }
        while i > 0
            invariant
                0 <= i <= n,
                n == s.len(),
                s == slice@,
                Traits::spec_valid(s),
                Traits::spec_valid(s.take(i as int)),
                Traits::spec_valid(s.skip(i as int)),
                scalar_last_match::<Traits>(*self, s) == scalar_last_match::<Traits>(
                    *self,
                    s.take(i as int),
                ),
            decreases i,
        {
            let ghost t = s.take(i as int);
            proof {
                Traits::lemma_decode_back_valid(t);
            }
            let head = slice_subrange(slice, 0, i);
            match Traits::decode_back(head) {
                Some(p) => {
                    let c = p.0;
                    let w = p.1;
                    proof {
                        Traits::lemma_encode_wf(c);
                        assert(Traits::spec_encode(c) =~= s.subrange(i - w, i as int));
                    }
                    if c == *self {
                        proof {
                            assert(scalar_last_match::<Traits>(*self, t) == Some(
                                (i - w, i as int),
                            ));
                            assert(s.subrange(0, i - w) =~= t.subrange(0, i - w));
                        }
                        return Some((i - w, i));
                    }
                    proof {
                        assert(t.take(i - w) =~= s.take(i - w));
                        assert(Traits::spec_valid(s.skip(i - w))) by {
                            Traits::lemma_valid_concat(
                                Traits::spec_encode(c),
                                s.skip(i as int),
                            );
                            assert(s.skip(i - w) =~= Traits::spec_encode(c) + s.skip(
                                i as int,
                            ));
                        }
                    }
                    i = i - w;
                },
                None => {
                    proof {
                        assert(false);
                    }
                },
            }
        }
        proof {
            assert(s.take(0) =~= Seq::<Traits::Char>::empty());
        }
        None
    }
}

impl<Traits: IntoChars + DecodeRev> BidirectionalPattern<Traits> for char {

}

/// The reference forward scan of a scalar-set matcher: the unit span of
/// the first scalar that belongs to `set`.
pub open spec fn scalar_set_first_match<Traits: IntoChars>(
    set: Seq<char>,
    s: Seq<Traits::Char>,
) -> Option<(int, int)>
    decreases s.len(),
{
    if s.len() == 0 {
        None
    } else {
        match Traits::spec_decode(s) {
            Some(p) => if !(1 <= p.1 <= s.len()) {
                None
            } else if set.contains(p.0) {
                Some((0, p.1))
            } else {
                shift_span(scalar_set_first_match::<Traits>(set, s.skip(p.1)), p.1)
            },
            None => None,
        }
    }
}

/// The reference backward scan of a scalar-set matcher: the unit span of
/// the last scalar that belongs to `set`.
pub open spec fn scalar_set_last_match<Traits: DecodeRev>(
    set: Seq<char>,
    s: Seq<Traits::Char>,
) -> Option<(int, int)>
    decreases s.len(),
{
    if s.len() == 0 {
        None
    } else {
        match Traits::spec_decode_back(s) {
            Some(p) => if !(1 <= p.1 <= s.len()) {
                None
            } else if set.contains(p.0) {
                Some((s.len() - p.1, s.len() as int))
            } else {
                scalar_set_last_match::<Traits>(set, s.take(s.len() - p.1))
            },
            None => None,
        }
    }
}

/// Tests whether `set` holds the scalar `c`.
fn set_contains(set: &[char], c: char) -> (b: bool)
    ensures
        b <==> set@.contains(c),
{
    let n = set.len();
    let mut i: usize = 0;
    while i < n
        invariant
            0 <= i <= n,
            n == set@.len(),
            forall|k: int| 0 <= k < i ==> set@[k] != c,
        decreases n - i,
    {
        let a = set[i];
        if (a as u32) == (c as u32) {
            proof {
                vstd::utf8::char_u32_cast(a, a as u32);
                vstd::utf8::char_u32_cast(c, c as u32);
                assert(set@.contains(c));
            }
            return true;
        }
        i = i + 1;
    }
    false
}

impl<'s, Traits: IntoChars> Pattern<Traits> for &'s [char] {
    open spec fn pat_wf(&self) -> bool {
        true
    }

    open spec fn first_match_spec(&self, s: Seq<Traits::Char>) -> Option<(int, int)> {
        scalar_set_first_match::<Traits>((*self)@, s)
    }

    fn first_match(&self, slice: &[Traits::Char]) -> (r: Option<(usize, usize)>) {
        let ghost s = slice@;
        let ghost set = (*self)@;
        let n = slice.len();
        let mut i: usize = 0;
        proof {
            assert(s.skip(0) =~= s);
            assert(s.subrange(0, 0) =~= Seq::<Traits::Char>::empty());
            Traits::lemma_valid_empty();
        }
        while i < n
            invariant
                0 <= i <= n,
                n == s.len(),
                s == slice@,
                set == (*self)@,
                Traits::spec_valid(s),
                Traits::spec_valid(s.subrange(0, i as int)),
                Traits::spec_valid(s.skip(i as int)),
                scalar_set_first_match::<Traits>(set, s) == shift_span(
                    scalar_set_first_match::<Traits>(set, s.skip(i as int)),
                    i as int,
                ),
            decreases n - i,
        {
            let ghost t = s.skip(i as int);
            proof {
                Traits::lemma_decode_valid(t);
            }
            let tail = slice_subrange(slice, i, n);
            match Traits::decode_buf(tail) {
                Some(p) => {
                    let c = p.0;
                    let w = p.1;
                    proof {
                        Traits::lemma_encode_wf(c);
                        assert(Traits::spec_encode(c) =~= s.subrange(i as int, i + w));
                    }
                    if set_contains(self, c) {
                        proof {
                            assert(scalar_set_first_match::<Traits>(set, t) == Some(
                                (0int, w as int),
                            ));
                            assert(s.subrange(i + w, s.len() as int) =~= t.subrange(
                                w as int,
                                t.len() as int,
                            ));
                        }
                        return Some((i, i + w));
                    }
                    proof {
                        assert(t.skip(w as int) =~= s.skip(i + w));
                        assert(Traits::spec_valid(s.subrange(0, i + w))) by {
                            Traits::lemma_valid_concat(
                                s.subrange(0, i as int),
                                Traits::spec_encode(c),
                            );
                            assert(s.subrange(0, i + w) =~= s.subrange(0, i as int)
                                + Traits::spec_encode(c));
                        }
                        assert(s.subrange(i + w, s.len() as int) =~= t.subrange(
                            w as int,
                            t.len() as int,
                        ));
                    }
                    i = i + w;
                },
                None => {
                    proof {
                        assert(false);
                    }
                },
            }
        }
        proof {
            assert(s.skip(n as int) =~= Seq::<Traits::Char>::empty());
        }
        None
    }
}

impl<'s, Traits: DecodeRev> RevPattern<Traits> for &'s [char] {
    open spec fn rev_pat_wf(&self) -> bool {
        true
    }

    open spec fn last_match_spec(&self, s: Seq<Traits::Char>) -> Option<(int, int)> {
        scalar_set_last_match::<Traits>((*self)@, s)
    }

    fn last_match(&self, slice: &[Traits::Char]) -> (r: Option<(usize, usize)>) {
        let ghost s = slice@;
        let ghost set = (*self)@;
        let n = slice.len();
        let mut i: usize = n;
        proof {
            assert(s.take(n as int) =~= s);
            assert(s.subrange(n as int, n as int) =~= Seq::<Traits::Char>::empty());
            Traits::lemma_valid_empty();
        }
        while i > 0
            invariant
                0 <= i <= n,
                n == s.len(),
                s == slice@,
                set == (*self)@,
                Traits::spec_valid(s),
                Traits::spec_valid(s.take(i as int)),
                Traits::spec_valid(s.skip(i as int)),
                scalar_set_last_match::<Traits>(set, s) == scalar_set_last_match::<Traits>(
                    set,
                    s.take(i as int),
                ),
            decreases i,
        {
            let ghost t = s.take(i as int);
            proof {
                Traits::lemma_decode_back_valid(t);
            }
            let head = slice_subrange(slice, 0, i);
            match Traits::decode_back(head) {
                Some(p) => {
                    let c = p.0;
                    let w = p.1;
                    proof {
                        Traits::lemma_encode_wf(c);
                        assert(Traits::spec_encode(c) =~= s.subrange(i - w, i as int));
                    }
                    if set_contains(self, c) {
                        proof {
                            assert(scalar_set_last_match::<Traits>(set, t) == Some(
                                (i - w, i as int),
                            ));
                            assert(s.subrange(0, i - w) =~= t.subrange(0, i - w));
                        }
                        return Some((i - w, i));
                    }
                    proof {
                        assert(t.take(i - w) =~= s.take(i - w));
                        assert(Traits::spec_valid(s.skip(i - w))) by {
                            Traits::lemma_valid_concat(
                                Traits::spec_encode(c),
                                s.skip(i as int),
                            );
                            assert(s.skip(i - w) =~= Traits::spec_encode(c) + s.skip(
                                i as int,
                            ));
                        }
                    }
                    i = i - w;
                },
                None => {
                    proof {
                        assert(false);
                    }
                },
            }
        }
        proof {
            assert(s.take(0) =~= Seq::<Traits::Char>::empty());
        }
        None
    }
}

impl<'s, Traits: IntoChars + DecodeRev> BidirectionalPattern<Traits> for &'s [char] {

}

/// Compares the window of `hay` starting at `i` against `w`.
fn window_eq<C: Char>(hay: &[C], i: usize, w: &[C]) -> (b: bool)
    requires
        i + w@.len() <= hay@.len(),
    ensures
        b <==> hay@.subrange(i as int, i + w@.len()) == w@,
{
    let m = w.len();
    let hn = hay.len();
    let mut k: usize = 0;
    while k < m
        invariant
            0 <= k <= m,
            m == w@.len(),
            hn == hay@.len(),
            i + m <= hn,
            forall|x: int| 0 <= x < k ==> hay@[i + x] == #[trigger] w@[x],
        decreases m - k,
    {
        let a = hay[i + k];
        let b = w[k];
        if !a.char_eq(b) {
            proof {
                assert(hay@.subrange(i as int, i + w@.len())[k as int] == hay@[i + k]);
            }
            return false;
        }
        proof {
            C::lemma_spec_int_injective(a, b);
        }
        k = k + 1;
    }
    proof {
        assert(hay@.subrange(i as int, i + w@.len()) =~= w@);
    }
    true
}

impl<'b, Traits: CharTraits> Pattern<Traits> for BasicStr<'b, Traits> {
    open spec fn pat_wf(&self) -> bool {
        self.wf()
    }

    open spec fn first_match_spec(&self, s: Seq<Traits::Char>) -> Option<(int, int)> {
        substr_first_from(s, self@, 0)
    }

    fn first_match(&self, slice: &[Traits::Char]) -> (r: Option<(usize, usize)>) {
        let ghost s = slice@;
        let ghost w = self@;
        let n = slice.len();
        let needle = self.as_chars();
        let m = needle.len();
        if m > n {
            return None;
        }
        if m == 0 {
            proof {
                assert(s.subrange(0, 0) =~= w);
                assert(s.subrange(0, 0) =~= Seq::<Traits::Char>::empty());
                assert(s.subrange(0, s.len() as int) =~= s);
                assert(substr_first_from(s, w, 0) == Some((0int, 0int)));
                Traits::lemma_valid_empty();
            }
            return Some((0, 0));
        }
        let mut i: usize = 0;
        while i <= n - m
            invariant
                0 <= i,
                1 <= m,
                m <= n,
                i + m <= n + 1,
                n == s.len(),
                m == w.len(),
                s == slice@,
                w == self@,
                needle@ == w,
                Traits::spec_valid(s),
                Traits::spec_valid(w),
                substr_first_from(s, w, 0) == substr_first_from(s, w, i as int),
            decreases n - i,
        {
            if window_eq(slice, i, needle) {
                proof {
                    assert(substr_first_from(s, w, i as int) == Some((i as int, i + m)));
                    Traits::lemma_valid_window(s, i as int, i + m);
                    Traits::lemma_split_at_boundary(s, i as int);
                    Traits::lemma_split_at_boundary(s, i + m);
                }
                return Some((i, i + m));
            }
            i = i + 1;
        }
        proof {
            assert(substr_first_from(s, w, i as int) is None);
        }
        None
    }
}

impl<'b, Traits: CharTraits> RevPattern<Traits> for BasicStr<'b, Traits> {
    open spec fn rev_pat_wf(&self) -> bool {
        self.wf()
    }

    open spec fn last_match_spec(&self, s: Seq<Traits::Char>) -> Option<(int, int)> {
        if self@.len() <= s.len() {
            substr_last_from(s, self@, s.len() - self@.len())
        } else {
            None
        }
    }

    fn last_match(&self, slice: &[Traits::Char]) -> (r: Option<(usize, usize)>) {
        let ghost s = slice@;
        let ghost w = self@;
        let n = slice.len();
        let needle = self.as_chars();
        let m = needle.len();
        if m > n {
            return None;
        }
        if m == 0 {
            proof {
                assert(s.subrange(n as int, n as int) =~= w);
                assert(s.subrange(n as int, n as int) =~= Seq::<Traits::Char>::empty());
                assert(s.subrange(0, s.len() as int) =~= s);
                assert(substr_last_from(s, w, n as int) == Some((n as int, n as int)));
                Traits::lemma_valid_empty();
            }
            return Some((n, n));
        }
        let mut i: usize = n - m;
        loop
            invariant
                0 <= i,
                1 <= m,
                i + m <= n,
                n == s.len(),
                m == w.len(),
                s == slice@,
                w == self@,
                needle@ == w,
                Traits::spec_valid(s),
                Traits::spec_valid(w),
                substr_last_from(s, w, s.len() - w.len()) == substr_last_from(s, w, i as int),
            decreases i,
        {
            if window_eq(slice, i, needle) {
                proof {
                    assert(substr_last_from(s, w, i as int) == Some((i as int, i + m)));
                    Traits::lemma_valid_window(s, i as int, i + m);
                    Traits::lemma_split_at_boundary(s, i as int);
                    Traits::lemma_split_at_boundary(s, i + m);
                }
                return Some((i, i + m));
            }
            if i == 0 {
                proof {
                    assert(substr_last_from(s, w, 0) is None);
                }
                return None;
            }
            i = i - 1;
        }
    }
}

impl<'b, Traits: CharTraits> BidirectionalPattern<Traits> for BasicStr<'b, Traits> {

}

} // verus!
