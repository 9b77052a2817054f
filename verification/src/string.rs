//! The owned growable validated buffer: a vector of elements whose
//! contents satisfy the encoding policy's invariant, re-established after
//! every mutation.
use vstd::prelude::*;
use crate::str::BasicStr;
use crate::traits::CharTraits;
use crate::traits::IntoChars;
use crate::traits::ValidationError;
use crate::utf::UtfCharTraits;

verus! {

/// An owned, growable element buffer that satisfies the whole-buffer
/// well-formedness invariant of the encoding policy `Traits`.
pub struct BasicString<Traits: CharTraits> {
    inner: Vec<Traits::Char>,
}

impl<Traits: CharTraits> View for BasicString<Traits> {
    type V = Seq<Traits::Char>;

    closed spec fn view(&self) -> Seq<Traits::Char> {
        self.inner@
    }
}

/// A rejected buffer together with the reason: the caller keeps ownership
/// of the elements that failed validation.
pub struct FromCharsError<Traits: CharTraits> {
    err: Traits::Error,
    chars: Vec<Traits::Char>,
}

impl<Traits: CharTraits> FromCharsError<Traits> {
    /// The validation error.
    pub closed spec fn spec_err(&self) -> Traits::Error {
        self.err
    }

    /// The rejected elements.
    pub closed spec fn spec_chars(&self) -> Seq<Traits::Char> {
        self.chars@
    }

    /// Hands the rejected buffer back to the caller.
    pub fn into_bytes(self) -> (r: Vec<Traits::Char>)
        ensures
            r@ == self.spec_chars(),
    {
        self.chars
    }

    /// The rejected buffer, borrowed.
    pub fn as_bytes(&self) -> (r: &[Traits::Char])
        ensures
            r@ == self.spec_chars(),
    {
        self.chars.as_slice()
    }

    /// The validation error itself.
    pub fn chars_error(&self) -> (r: Traits::Error) where Traits::Error: Copy
        ensures
            r == self.spec_err(),
    {
        self.err
    }
}

impl<Traits: CharTraits> BasicString<Traits> {
    /// The invariant every live value of this type satisfies.
    pub open spec fn wf(&self) -> bool {
        Traits::spec_valid(self@)
    }

    /// An empty buffer.
    pub fn new() -> (r: BasicString<Traits>)
        ensures
            r@ == Seq::<Traits::Char>::empty(),
            r.wf(),
    {
        proof {
            Traits::lemma_valid_empty();
        }
        BasicString { inner: Vec::new() }
    }

    /// An empty buffer with room reserved for `cap` elements.
    pub fn with_capacity(cap: usize) -> (r: BasicString<Traits>)
        ensures
            r@ == Seq::<Traits::Char>::empty(),
            r.wf(),
    {
        proof {
            Traits::lemma_valid_empty();
        }
        BasicString { inner: Vec::with_capacity(cap) }
    }

    /// Validates an owned element buffer and wraps it; a rejected buffer
    /// is handed back with the error, so the caller never loses ownership.
    pub fn from_chars(chars: Vec<Traits::Char>) -> (r: Result<
        BasicString<Traits>,
        FromCharsError<Traits>,
    >)
        ensures
            r is Ok <==> Traits::spec_valid(chars@),
            r is Ok ==> (r->Ok_0)@ == chars@ && (r->Ok_0).wf(),
            r is Err ==> (r->Err_0).spec_chars() == chars@,
            r is Err ==> (r->Err_0).spec_err().spec_pos() == Traits::spec_err_pos(chars@),
            r is Err ==> (r->Err_0).spec_err().spec_len() == Traits::spec_err_len(chars@),
    {
        match Traits::validate_range(chars.as_slice()) {
            Ok(()) => Ok(BasicString { inner: chars }),
            Err(err) => Err(FromCharsError { err, chars }),
        }
    }

    /// Wraps an owned element buffer without running validation; the
    /// caller proves well-formedness instead.
    pub fn from_chars_unchecked(chars: Vec<Traits::Char>) -> (r: BasicString<Traits>)
        requires
            Traits::spec_valid(chars@),
        ensures
            r@ == chars@,
            r.wf(),
    {
        BasicString { inner: chars }
    }

    /// Releases the underlying element buffer.
    pub fn into_chars(self) -> (r: Vec<Traits::Char>)
        ensures
            r@ == self@,
    {
        self.inner
    }

    /// The underlying elements, borrowed.
    pub fn as_chars(&self) -> (r: &[Traits::Char])
        ensures
            r@ == self@,
    {
        self.inner.as_slice()
    }

    /// The length of the buffer, in elements.
    pub fn len(&self) -> (n: usize)
        ensures
            n == self@.len(),
    {
        self.inner.len()
    }

    /// A validated borrowed slice over the whole buffer.
    pub fn as_basic_str<'s>(&'s self) -> (r: BasicStr<'s, Traits>)
        requires
            self.wf(),
        ensures
            r@ == self@,
            r.wf(),
    {
        BasicStr::from_chars_unchecked(self.inner.as_slice())
    }

    /// Appends another validated sequence of the same encoding without
    /// re-validating: concatenation of two well-formed buffers is
    /// well-formed under every policy.
    pub fn push_str(&mut self, s: &BasicStr<'_, Traits>)
        requires
            old(self).wf(),
            s.wf(),
        ensures
            final(self)@ == old(self)@ + s@,
            final(self).wf(),
    {
        let chars = s.as_chars();
        let n = chars.len();
        let mut i: usize = 0;
        proof {
            assert(old(self)@ + s@.subrange(0, 0) =~= old(self)@);
        }
        while i < n
            invariant
                0 <= i <= n,
                n == chars@.len(),
                chars@ == s@,
                self.inner@ == old(self)@ + s@.subrange(0, i as int),
            decreases n - i,
        {
            let c = chars[i];
            self.inner.push(c);
            proof {
                assert(old(self)@ + s@.subrange(0, i + 1) =~= (old(self)@ + s@.subrange(
                    0,
                    i as int,
                )).push(s@[i as int]));
            }
            i = i + 1;
        }
        proof {
            assert(s@.subrange(0, n as int) =~= s@);
            Traits::lemma_valid_concat(old(self)@, s@);
        }
    }
}

impl<Traits: IntoChars> BasicString<Traits> {
    /// Encodes one scalar and appends its units; the buffer stays
    /// well-formed because a scalar encoding is well-formed and
    /// concatenation preserves well-formedness.
    pub fn push(&mut self, c: char)
        requires
            old(self).wf(),
        ensures
            final(self)@ == old(self)@ + Traits::spec_encode(c),
            final(self).wf(),
    {
        let mut encoded = Traits::encode(c);
        self.inner.append(&mut encoded);
        proof {
            Traits::lemma_encode_wf(c);
            Traits::lemma_valid_concat(old(self)@, Traits::spec_encode(c));
        }
    }
}

/// An owned validated buffer under the Unicode policy for the element
/// type.
pub type UtfString<CharT> = BasicString<UtfCharTraits<CharT>>;

/// An owned validated UTF-8 byte buffer.
pub type Utf8String = UtfString<u8>;

/// An owned validated UTF-16 code-unit buffer.
pub type U16String = UtfString<u16>;

/// An owned validated buffer of scalar values.
pub type U32String = UtfString<char>;

} // verus!
