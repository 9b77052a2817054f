//! The borrowed validated slice type: an element sequence whose contents
//! are known to satisfy an encoding policy's well-formedness invariant,
//! with cheap boundary-checked slicing and pattern-based search.
use vstd::prelude::*;
use vstd::slice::slice_subrange;
use crate::traits::CharTraits;
use crate::traits::IntoChars;
use crate::traits::ValidationError;
use crate::utf::UtfCharTraits;

verus! {

/// A borrowed element sequence that satisfies the whole-buffer
/// well-formedness invariant of the encoding policy `Traits`.
pub struct BasicStr<'a, Traits: CharTraits> {
    chars: &'a [Traits::Char],
}

impl<'a, Traits: CharTraits> Clone for BasicStr<'a, Traits> {
    fn clone(&self) -> (r: Self)
        ensures
            r == *self,
    {
        BasicStr { chars: self.chars }
    }
}

impl<'a, Traits: CharTraits> Copy for BasicStr<'a, Traits> {

}

impl<'a, Traits: CharTraits> View for BasicStr<'a, Traits> {
    type V = Seq<Traits::Char>;

    closed spec fn view(&self) -> Seq<Traits::Char> {
        self.chars@
    }
}

impl<'a, Traits: CharTraits> BasicStr<'a, Traits> {
    /// The invariant every live value of this type satisfies: its whole
    /// buffer is well-formed under the encoding policy.
    pub open spec fn wf(&self) -> bool {
        Traits::spec_valid(self@)
    }

    /// Validates a raw element slice and wraps it; on failure reports the
    /// first defective position and length.
    pub fn from_chars(chars: &'a [Traits::Char]) -> (r: Result<BasicStr<'a, Traits>, Traits::Error>)
        ensures
            r is Ok <==> Traits::spec_valid(chars@),
            r is Ok ==> (r->Ok_0)@ == chars@ && (r->Ok_0).wf(),
            r is Err ==> (r->Err_0).spec_pos() == Traits::spec_err_pos(chars@),
            r is Err ==> (r->Err_0).spec_len() == Traits::spec_err_len(chars@),
    {
        match Traits::validate_range(chars) {
            Ok(()) => Ok(BasicStr { chars }),
            Err(e) => Err(e),
        }
    }

    /// Wraps an element slice without running validation: the unchecked
    /// counterpart of the validating constructor. The well-formedness
    /// obligation stands as a `requires` that the caller proves, not as a
    /// runtime check.
    pub fn from_chars_unchecked(chars: &'a [Traits::Char]) -> (r: BasicStr<'a, Traits>)
        requires
            Traits::spec_valid(chars@),
        ensures
            r@ == chars@,
            r.wf(),
    {
        BasicStr { chars }
    }

    /// The underlying element slice.
    pub fn as_chars(&self) -> (r: &'a [Traits::Char])
        ensures
            r@ == self@,
    {
        self.chars
    }

    /// The length of the underlying buffer, in elements.
    pub fn len(&self) -> (n: usize)
        ensures
            n == self@.len(),
    {
        self.chars.len()
    }

    /// True when the buffer holds no elements.
    pub fn is_empty(&self) -> (b: bool)
        ensures
            b <==> self@.len() == 0,
    {
        self.chars.len() == 0
    }

    /// Slices `self` to the element range `start..end`, re-validating only
    /// the edges of the cut. Returns the slice exactly when the range is
    /// in bounds and cuts on scalar boundaries.
    pub fn get(&self, start: usize, end: usize) -> (r: Option<BasicStr<'a, Traits>>)
        requires
            self.wf(),
        ensures
            r is Some <==> start <= end <= self@.len() && Traits::spec_valid(
                self@.subrange(start as int, end as int),
            ),
            r is Some ==> (r->0)@ == self@.subrange(start as int, end as int) && (r->0).wf(),
    {
        if start > end || end > self.chars.len() {
            return None;
        }
        let range = slice_subrange(self.chars, start, end);
        match Traits::validate_subrange(range) {
            Ok(()) => {
                proof {
                    Traits::lemma_boundary_ok_subrange(self@, start as int, end as int);
                }
                Some(BasicStr { chars: range })
            },
            Err(e) => {
                proof {
                    if Traits::spec_valid(self@.subrange(start as int, end as int)) {
                        Traits::lemma_valid_boundary_ok(
                            self@.subrange(start as int, end as int),
                        );
                    }
                }
                None
            },
        }
    }

    /// Slices `self` to `start..end` without any runtime check: the
    /// bounds and the well-formedness of the cut stand as `requires` that
    /// the caller proves.
    pub fn get_unchecked(&self, start: usize, end: usize) -> (r: BasicStr<'a, Traits>)
        requires
            self.wf(),
            start <= end <= self@.len(),
            Traits::spec_valid(self@.subrange(start as int, end as int)),
        ensures
            r@ == self@.subrange(start as int, end as int),
            r.wf(),
    {
        BasicStr { chars: slice_subrange(self.chars, start, end) }
    }

    /// Splits `self` at a scalar boundary into two validated halves, each
    /// re-checked only at its edges.
    pub fn split_at(&self, mid: usize) -> (r: (BasicStr<'a, Traits>, BasicStr<'a, Traits>))
        requires
            self.wf(),
            mid <= self@.len(),
            Traits::spec_is_boundary(self@, mid as int),
        ensures
            r.0@ == self@.subrange(0, mid as int),
            r.1@ == self@.subrange(mid as int, self@.len() as int),
            r.0.wf() && r.1.wf(),
            self@ == r.0@ + r.1@,
    {
        proof {
            Traits::lemma_split_at_boundary(self@, mid as int);
        }
        let left = slice_subrange(self.chars, 0, mid);
        let right = slice_subrange(self.chars, mid, self.chars.len());
        proof {
            assert(self@ =~= self@.subrange(0, mid as int) + self@.subrange(
                mid as int,
                self@.len() as int,
            ));
        }
        (BasicStr { chars: left }, BasicStr { chars: right })
    }
}

/// An iterator over the raw elements of a validated slice.
pub struct Chars<'a, C> {
    slice: &'a [C],
    pos: usize,
}

impl<'a, C: Copy> Chars<'a, C> {
    /// The elements not yet handed out.
    pub closed spec fn remaining(&self) -> Seq<C> {
        if self.pos <= self.slice@.len() {
            self.slice@.skip(self.pos as int)
        } else {
            Seq::empty()
        }
    }

    /// Hands out the next element, or none at the end.
    pub fn next(&mut self) -> (r: Option<C>)
        ensures
            old(self).remaining().len() == 0 ==> r is None && final(self).remaining()
                == old(self).remaining(),
            old(self).remaining().len() > 0 ==> r == Some(old(self).remaining()[0])
                && final(self).remaining() == old(self).remaining().skip(1),
    {
        if self.pos < self.slice.len() {
            let c = self.slice[self.pos];
            self.pos = self.pos + 1;
            proof {
                assert(final(self).slice@.skip(final(self).pos as int) =~= old(
                    self,
                ).remaining().skip(1));
                assert(old(self).remaining()[0] == old(self).slice@[old(self).pos as int]);
            }
            Some(c)
        } else {
            proof {
                assert(old(self).remaining().len() == 0);
            }
            None
        }
    }
}

/// An iterator over the Unicode scalars of a validated slice, decoding
/// one scalar per step.
pub struct UnicodeIter<'a, Traits: CharTraits> {
    rest: &'a [Traits::Char],
}

impl<'a, Traits: IntoChars> UnicodeIter<'a, Traits> {
    /// The invariant: what remains is well-formed.
    pub open spec fn wf(&self) -> bool {
        Traits::spec_valid(self.remaining())
    }

    /// The elements not yet decoded.
    pub closed spec fn remaining(&self) -> Seq<Traits::Char> {
        self.rest@
    }

    /// Decodes and hands out the next scalar, or none at the end.
    pub fn next(&mut self) -> (r: Option<char>)
        requires
            old(self).wf(),
        ensures
            final(self).wf(),
            old(self).remaining().len() == 0 ==> r is None && final(self).remaining()
                == old(self).remaining(),
            old(self).remaining().len() > 0 ==> {
                &&& r is Some
                &&& Traits::spec_encode(r->0) + final(self).remaining() == old(self).remaining()
            },
    {
        if self.rest.len() == 0 {
            return None;
        }
        proof {
            Traits::lemma_decode_valid(self.rest@);
        }
        match Traits::decode_buf(self.rest) {
            Some(p) => {
                self.rest = slice_subrange(self.rest, p.1, self.rest.len());
                proof {
                    assert(Traits::spec_encode(p.0) + final(self).remaining() =~= old(
                        self,
                    ).remaining());
                }
                Some(p.0)
            },
            None => {
                proof {
                    assert(false);
                }
                None
            },
        }
    }
}

impl<'a, Traits: CharTraits> BasicStr<'a, Traits> {
    /// An iterator over the raw elements.
    pub fn chars(&self) -> (it: Chars<'a, Traits::Char>)
        ensures
            it.remaining() == self@,
    {
        proof {
            assert(self.chars@.skip(0) =~= self.chars@);
        }
        Chars { slice: self.chars, pos: 0 }
    }
}

impl<'a, Traits: IntoChars> BasicStr<'a, Traits> {
    /// An iterator over the Unicode scalars of the buffer.
    pub fn unicode_iter(&self) -> (it: UnicodeIter<'a, Traits>)
        requires
            self.wf(),
        ensures
            it.wf(),
            it.remaining() == self@,
    {
        UnicodeIter { rest: self.chars }
    }
}

impl<'a, Traits: CharTraits> BasicStr<'a, Traits> {
    /// Finds the start of the first match of `pat`, per the pattern's
    /// reference scan.
    pub fn find<P: crate::pattern::Pattern<Traits>>(&self, pat: P) -> (r: Option<usize>)
        requires
            self.wf(),
            pat.pat_wf(),
        ensures
            r is Some <==> pat.first_match_spec(self@) is Some,
            r is Some ==> Some((r->0) as int) == match pat.first_match_spec(self@) {
                Some(p) => Some(p.0),
                None => None::<int>,
            },
    {
        match pat.first_match(self.chars) {
            Some(p) => Some(p.0),
            None => None,
        }
    }

    /// Finds the start of the last match of `pat`, per the pattern's
    /// reference scan.
    pub fn rfind<P: crate::pattern::RevPattern<Traits>>(&self, pat: P) -> (r: Option<usize>)
        requires
            self.wf(),
            pat.rev_pat_wf(),
        ensures
            r is Some <==> pat.last_match_spec(self@) is Some,
            r is Some ==> Some((r->0) as int) == match pat.last_match_spec(self@) {
                Some(p) => Some(p.0),
                None => None::<int>,
            },
    {
        match pat.last_match(self.chars) {
            Some(p) => Some(p.0),
            None => None,
        }
    }

    /// Splits `self` around the first match of `pat`: the validated pieces
    /// before and after it. Reassembling before, match and after
    /// reproduces the original sequence.
    pub fn split_once<P: crate::pattern::Pattern<Traits>>(&self, pat: P) -> (r: Option<
        (BasicStr<'a, Traits>, BasicStr<'a, Traits>),
    >)
        requires
            self.wf(),
            pat.pat_wf(),
        ensures
            r is Some <==> pat.first_match_spec(self@) is Some,
            r is Some ==> match pat.first_match_spec(self@) {
                Some(p) => {
                    &&& (r->0).0@ == self@.subrange(0, p.0)
                    &&& (r->0).1@ == self@.subrange(p.1, self@.len() as int)
                    &&& (r->0).0.wf() && (r->0).1.wf()
                    &&& self@ == (r->0).0@ + self@.subrange(p.0, p.1) + (r->0).1@
                },
                None => false,
            },
    {
        match pat.first_match(self.chars) {
            Some(p) => {
                let before = slice_subrange(self.chars, 0, p.0);
                let after = slice_subrange(self.chars, p.1, self.chars.len());
                proof {
                    assert(self@ =~= self@.subrange(0, p.0 as int) + self@.subrange(
                        p.0 as int,
                        p.1 as int,
                    ) + self@.subrange(p.1 as int, self@.len() as int));
                }
                Some((BasicStr { chars: before }, BasicStr { chars: after }))
            },
            None => None,
        }
    }

    /// Splits `self` around the last match of `pat`: the validated pieces
    /// before and after it. Reassembling before, match and after
    /// reproduces the original sequence.
    pub fn rsplit_once<P: crate::pattern::RevPattern<Traits>>(&self, pat: P) -> (r: Option<
        (BasicStr<'a, Traits>, BasicStr<'a, Traits>),
    >)
        requires
            self.wf(),
            pat.rev_pat_wf(),
        ensures
            r is Some <==> pat.last_match_spec(self@) is Some,
            r is Some ==> match pat.last_match_spec(self@) {
                Some(p) => {
                    &&& (r->0).0@ == self@.subrange(0, p.0)
                    &&& (r->0).1@ == self@.subrange(p.1, self@.len() as int)
                    &&& (r->0).0.wf() && (r->0).1.wf()
                    &&& self@ == (r->0).0@ + self@.subrange(p.0, p.1) + (r->0).1@
                },
                None => false,
            },
    {
        match pat.last_match(self.chars) {
            Some(p) => {
                let before = slice_subrange(self.chars, 0, p.0);
                let after = slice_subrange(self.chars, p.1, self.chars.len());
                proof {
                    assert(self@ =~= self@.subrange(0, p.0 as int) + self@.subrange(
                        p.0 as int,
                        p.1 as int,
                    ) + self@.subrange(p.1 as int, self@.len() as int));
                }
                Some((BasicStr { chars: before }, BasicStr { chars: after }))
            },
            None => None,
        }
    }

    /// A lazy forward sequence of the pieces of `self` between matches of
    /// `pat`.
    pub fn split<P: Copy + crate::pattern::Pattern<Traits>>(&self, pat: P) -> (it: Split<
        'a,
        P,
        Traits,
    >)
        requires
            self.wf(),
            pat.pat_wf(),
        ensures
            it.wf(),
            it.remaining() == Some(self@),
            it.spec_pat() == pat,
    {
        Split { rest: Some(*self), pat }
    }

    /// A lazy backward sequence of the pieces of `self` between matches of
    /// `pat`.
    pub fn rsplit<P: Copy + crate::pattern::RevPattern<Traits>>(&self, pat: P) -> (it: RSplit<
        'a,
        P,
        Traits,
    >)
        requires
            self.wf(),
            pat.rev_pat_wf(),
        ensures
            it.wf(),
            it.remaining() == Some(self@),
            it.spec_pat() == pat,
    {
        RSplit { rest: Some(*self), pat }
    }
}

/// A lazy forward split: each step yields the piece before the next match
/// and keeps the remainder; the final remainder is yielded once, then the
/// sequence ends.
pub struct Split<'a, P, Traits: CharTraits> {
    rest: Option<BasicStr<'a, Traits>>,
    pat: P,
}

/// A lazy backward split: each step yields the piece after the last match
/// and keeps the remainder; the final remainder is yielded once, then the
/// sequence ends.
pub struct RSplit<'a, P, Traits: CharTraits> {
    rest: Option<BasicStr<'a, Traits>>,
    pat: P,
}

impl<'a, P: Copy + crate::pattern::Pattern<Traits>, Traits: CharTraits> Split<'a, P, Traits> {
    /// The invariant: the remainder, if any, is well-formed, and the
    /// pattern's own invariant holds.
    pub closed spec fn wf(&self) -> bool {
        &&& match self.rest {
            Some(t) => t.wf(),
            None => true,
        }
        &&& self.pat.pat_wf()
    }

    /// The sequence not yet split, or none once the split has ended.
    pub closed spec fn remaining(&self) -> Option<Seq<Traits::Char>> {
        match self.rest {
            Some(t) => Some(t@),
            None => None,
        }
    }

    /// The pattern the split scans with.
    pub closed spec fn spec_pat(&self) -> P {
        self.pat
    }

    /// Yields the piece before the next match and retains the remainder;
    /// with no further match, yields what is left once, then ends.
    pub fn next(&mut self) -> (r: Option<BasicStr<'a, Traits>>)
        requires
            old(self).wf(),
        ensures
            final(self).wf(),
            final(self).spec_pat() == old(self).spec_pat(),
            match old(self).remaining() {
                None => r is None && final(self).remaining() is None,
                Some(t) => {
                    &&& r is Some && (r->0).wf()
                    &&& match old(self).spec_pat().first_match_spec(t) {
                        Some(p) => (r->0)@ == t.subrange(0, p.0) && final(self).remaining()
                            == Some(t.subrange(p.1, t.len() as int)),
                        None => (r->0)@ == t && final(self).remaining() is None,
                    }
                },
            },
    {
        match self.rest {
            Some(t) => {
                match t.split_once(self.pat) {
                    Some(pair) => {
                        self.rest = Some(pair.1);
                        Some(pair.0)
                    },
                    None => {
                        self.rest = None;
                        Some(t)
                    },
                }
            },
            None => None,
        }
    }
}

impl<'a, P: Copy + crate::pattern::RevPattern<Traits>, Traits: CharTraits> RSplit<'a, P, Traits> {
    /// The invariant: the remainder, if any, is well-formed, and the
    /// pattern's own invariant holds.
    pub closed spec fn wf(&self) -> bool {
        &&& match self.rest {
            Some(t) => t.wf(),
            None => true,
        }
        &&& self.pat.rev_pat_wf()
    }

    /// The sequence not yet split, or none once the split has ended.
    pub closed spec fn remaining(&self) -> Option<Seq<Traits::Char>> {
        match self.rest {
            Some(t) => Some(t@),
            None => None,
        }
    }

    /// The pattern the split scans with.
    pub closed spec fn spec_pat(&self) -> P {
        self.pat
    }

    /// Yields the piece after the last match and retains the remainder;
    /// with no further match, yields what is left once, then ends.
    pub fn next(&mut self) -> (r: Option<BasicStr<'a, Traits>>)
        requires
            old(self).wf(),
        ensures
            final(self).wf(),
            final(self).spec_pat() == old(self).spec_pat(),
            match old(self).remaining() {
                None => r is None && final(self).remaining() is None,
                Some(t) => {
                    &&& r is Some && (r->0).wf()
                    &&& match old(self).spec_pat().last_match_spec(t) {
                        Some(p) => (r->0)@ == t.subrange(p.1, t.len() as int)
                            && final(self).remaining() == Some(t.subrange(0, p.0)),
                        None => (r->0)@ == t && final(self).remaining() is None,
                    }
                },
            },
    {
        match self.rest {
            Some(t) => {
                match t.rsplit_once(self.pat) {
                    Some(pair) => {
                        self.rest = Some(pair.0);
                        Some(pair.1)
                    },
                    None => {
                        self.rest = None;
                        Some(t)
                    },
                }
            },
            None => None,
        }
    }
}

impl<'a> BasicStr<'a, UtfCharTraits<u8>> {
    /// Wraps the bytes of a host string: they are well-formed UTF-8 by
    /// construction, so no re-validation is needed.
    pub fn from_str(x: &'a str) -> (r: BasicStr<'a, UtfCharTraits<u8>>)
        ensures
            r@ == vstd::utf8::encode_utf8(x@),
            r.wf(),
    {
        proof {
            vstd::utf8::encode_utf8_valid_utf8(x@);
        }
        BasicStr::from_chars_unchecked(x.as_bytes())
    }
}

impl<
    'a,
    P: Copy + crate::pattern::BidirectionalPattern<Traits>,
    Traits: CharTraits,
> Split<'a, P, Traits> {
    /// Peels the piece after the last match off the same remainder: a
    /// bidirectional matcher lets the split be consumed from both ends.
    pub fn next_back(&mut self) -> (r: Option<BasicStr<'a, Traits>>)
        requires
            old(self).wf(),
            old(self).spec_pat().rev_pat_wf(),
        ensures
            final(self).wf(),
            final(self).spec_pat() == old(self).spec_pat(),
            match old(self).remaining() {
                None => r is None && final(self).remaining() is None,
                Some(t) => {
                    &&& r is Some && (r->0).wf()
                    &&& match old(self).spec_pat().last_match_spec(t) {
                        Some(p) => (r->0)@ == t.subrange(p.1, t.len() as int)
                            && final(self).remaining() == Some(t.subrange(0, p.0)),
                        None => (r->0)@ == t && final(self).remaining() is None,
                    }
                },
            },
    {
        match self.rest {
            Some(t) => {
                match t.rsplit_once(self.pat) {
                    Some(pair) => {
                        self.rest = Some(pair.0);
                        Some(pair.1)
                    },
                    None => {
                        self.rest = None;
                        Some(t)
                    },
                }
            },
            None => None,
        }
    }
}

impl<
    'a,
    P: Copy + crate::pattern::BidirectionalPattern<Traits>,
    Traits: CharTraits,
> RSplit<'a, P, Traits> {
    /// Peels the piece before the first match off the same remainder: a
    /// bidirectional matcher lets the split be consumed from both ends.
    pub fn next_back(&mut self) -> (r: Option<BasicStr<'a, Traits>>)
        requires
            old(self).wf(),
            old(self).spec_pat().pat_wf(),
        ensures
            final(self).wf(),
            final(self).spec_pat() == old(self).spec_pat(),
            match old(self).remaining() {
                None => r is None && final(self).remaining() is None,
                Some(t) => {
                    &&& r is Some && (r->0).wf()
                    &&& match old(self).spec_pat().first_match_spec(t) {
                        Some(p) => (r->0)@ == t.subrange(0, p.0) && final(self).remaining()
                            == Some(t.subrange(p.1, t.len() as int)),
                        None => (r->0)@ == t && final(self).remaining() is None,
                    }
                },
            },
    {
        match self.rest {
            Some(t) => {
                match t.split_once(self.pat) {
                    Some(pair) => {
                        self.rest = Some(pair.1);
                        Some(pair.0)
                    },
                    None => {
                        self.rest = None;
                        Some(t)
                    },
                }
            },
            None => None,
        }
    }
}

/// A validated slice under the Unicode policy for the element type.
pub type UtfStr<'a, CharT> = BasicStr<'a, UtfCharTraits<CharT>>;

/// A validated UTF-8 byte slice.
pub type Str<'a> = BasicStr<'a, UtfCharTraits<u8>>;

/// A validated UTF-16 code-unit slice.
pub type U16Str<'a> = BasicStr<'a, UtfCharTraits<u16>>;

/// A validated slice of scalar values.
pub type U32Str<'a> = BasicStr<'a, UtfCharTraits<char>>;

} // verus!
