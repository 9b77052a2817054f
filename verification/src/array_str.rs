//! The fixed-capacity validated array string: exactly `N` elements held
//! inline, validated once at construction and immutable afterwards.
use vstd::prelude::*;
use vstd::array::array_as_slice;
use vstd::array::array_fill_for_copy_types;
use vstd::slice::SliceAdditionalExecFns;
use crate::str::BasicStr;
use crate::traits::Char;
use crate::traits::CharTraits;
use crate::traits::ValidationError;
use crate::utf::UtfCharTraits;

verus! {

/// A fixed-capacity buffer was handed input of the wrong size: the error
/// reports the offered length, while `N` is the required one.
#[derive(Debug)]
pub struct LengthError<const N: usize> {
    len: usize,
}

impl<const N: usize> Clone for LengthError<N> {
    fn clone(&self) -> (r: Self)
        ensures
            r == *self,
    {
        LengthError { len: self.len }
    }
}

impl<const N: usize> Copy for LengthError<N> {

}

impl<const N: usize> LengthError<N> {
    /// The offered length.
    pub closed spec fn spec_len(&self) -> int {
        self.len as int
    }

    /// The offered length.
    pub fn offered_len(&self) -> (r: usize)
        ensures
            r as int == self.spec_len(),
    {
        self.len
    }

    /// The required length.
    pub fn required_len(&self) -> (r: usize)
        ensures
            r == N,
    {
        N
    }
}

/// An owned array of exactly `N` elements that satisfies the whole-buffer
/// well-formedness invariant of the encoding policy `Traits`.
pub struct BasicArrayString<Traits: CharTraits, const N: usize> {
    chars: [Traits::Char; N],
}

impl<Traits: CharTraits, const N: usize> View for BasicArrayString<Traits, N> {
    type V = Seq<Traits::Char>;

    closed spec fn view(&self) -> Seq<Traits::Char> {
        self.chars@
    }
}

impl<Traits: CharTraits, const N: usize> BasicArrayString<Traits, N> {
    /// The invariant every live value of this type satisfies.
    pub open spec fn wf(&self) -> bool {
        &&& Traits::spec_valid(self@)
        &&& self@.len() == N
    }

    /// Validates an element array and wraps it.
    pub fn from_chars(chars: [Traits::Char; N]) -> (r: Result<
        BasicArrayString<Traits, N>,
        Traits::Error,
    >)
        ensures
            r is Ok <==> Traits::spec_valid(chars@),
            r is Ok ==> (r->Ok_0)@ == chars@ && (r->Ok_0).wf(),
            r is Err ==> (r->Err_0).spec_pos() == Traits::spec_err_pos(chars@),
            r is Err ==> (r->Err_0).spec_len() == Traits::spec_err_len(chars@),
    {
        match Traits::validate_range(array_as_slice(&chars)) {
            Ok(()) => Ok(BasicArrayString { chars }),
            Err(e) => Err(e),
        }
    }

    /// Wraps an element array without running validation; the caller
    /// proves well-formedness instead.
    pub fn from_chars_unchecked(chars: [Traits::Char; N]) -> (r: BasicArrayString<Traits, N>)
        requires
            Traits::spec_valid(chars@),
        ensures
            r@ == chars@,
            r.wf(),
    {
        BasicArrayString { chars }
    }

    /// Copies a validated slice of exactly `N` elements into a
    /// fixed-capacity array string; any other length is rejected with an
    /// error reporting it.
    pub fn try_from_str(s: &BasicStr<'_, Traits>) -> (r: Result<
        BasicArrayString<Traits, N>,
        LengthError<N>,
    >)
        requires
            s.wf(),
        ensures
            r is Ok <==> s@.len() == N,
            r is Ok ==> (r->Ok_0)@ == s@ && (r->Ok_0).wf(),
            r is Err ==> (r->Err_0).spec_len() == s@.len(),
    {
        let chars = s.as_chars();
        if chars.len() != N {
            return Err(LengthError { len: chars.len() });
        }
        let mut arr: [Traits::Char; N] = array_fill_for_copy_types(Traits::zero_term());
        let arr_slice = vstd::array::ref_mut_array_unsizing_coercion(&mut arr);
        let mut i: usize = 0;
        while i < N
            invariant
                0 <= i <= N,
                chars@.len() == N,
                chars@ == s@,
                arr_slice@.len() == N,
                forall|k: int| 0 <= k < i ==> arr_slice@[k] == #[trigger] chars@[k],
            decreases N - i,
        {
            arr_slice.set(i, chars[i]);
            i = i + 1;
        }
        proof {
            assert(arr_slice@ =~= s@);
        }
        Ok(BasicArrayString { chars: arr })
    }

    /// The underlying elements, borrowed.
    pub fn as_chars(&self) -> (r: &[Traits::Char])
        ensures
            r@ == self@,
    {
        array_as_slice(&self.chars)
    }

    /// Releases the underlying element array.
    pub fn into_chars(self) -> (r: [Traits::Char; N])
        ensures
            r@ == self@,
    {
        self.chars
    }

    /// A validated borrowed slice over the whole array.
    pub fn as_basic_str<'s>(&'s self) -> (r: BasicStr<'s, Traits>)
        requires
            self.wf(),
        ensures
            r@ == self@,
            r.wf(),
    {
        BasicStr::from_chars_unchecked(array_as_slice(&self.chars))
    }
}

/// A fixed-capacity validated array under the Unicode policy for the
/// element type.
pub type UtfArrayString<CharT, const N: usize> = BasicArrayString<UtfCharTraits<CharT>, N>;

/// A fixed-capacity validated UTF-8 byte array.
pub type ArrayString<const N: usize> = UtfArrayString<u8, N>;

/// A fixed-capacity validated UTF-16 code-unit array.
pub type U16ArrayString<const N: usize> = UtfArrayString<u16, N>;

/// A fixed-capacity validated array of scalar values.
pub type U32ArrayString<const N: usize> = UtfArrayString<char, N>;

} // verus!
