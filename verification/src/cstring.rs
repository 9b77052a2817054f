//! The owned null-terminated validated buffer.
use vstd::prelude::*;
use crate::cstr::BasicCStr;
use crate::cstr::cstr_valid;
use crate::traits::CharTraits;

verus! {

/// An owned element buffer that always ends in exactly one zero
/// terminator and is well-formed under the encoding policy `Traits`.
pub struct BasicCString<Traits: CharTraits> {
    inner: Vec<Traits::Char>,
}

impl<Traits: CharTraits> View for BasicCString<Traits> {
    type V = Seq<Traits::Char>;

    closed spec fn view(&self) -> Seq<Traits::Char> {
        self.inner@
    }
}

impl<Traits: CharTraits> BasicCString<Traits> {
    /// The invariant every live value of this type satisfies.
    pub open spec fn wf(&self) -> bool {
        cstr_valid::<Traits>(self@)
    }

    /// An empty null-terminated buffer: a single zero terminator.
    pub fn new() -> (r: BasicCString<Traits>)
        ensures
            r@.len() == 1,
            Traits::spec_zero(r@[0]),
            r.wf(),
    {
        let mut arr: Vec<Traits::Char> = Vec::with_capacity(1);
        let z = Traits::zero_term();
        arr.push(z);
        proof {
            Traits::lemma_zero_term_valid(z);
            assert(arr@ =~= seq![z]);
        }
        BasicCString { inner: arr }
    }

    /// An empty null-terminated buffer with room reserved for `n`
    /// elements.
    pub fn with_capacity(n: usize) -> (r: BasicCString<Traits>)
        ensures
            r@.len() == 1,
            Traits::spec_zero(r@[0]),
            r.wf(),
    {
        let mut arr: Vec<Traits::Char> = if n == 0 {
            Vec::with_capacity(1)
        } else {
            Vec::with_capacity(n)
        };
        let z = Traits::zero_term();
        arr.push(z);
        proof {
            Traits::lemma_zero_term_valid(z);
            assert(arr@ =~= seq![z]);
        }
        BasicCString { inner: arr }
    }

    /// The underlying elements, terminator included, borrowed.
    pub fn as_chars(&self) -> (r: &[Traits::Char])
        ensures
            r@ == self@,
    {
        self.inner.as_slice()
    }

    /// A borrowed null-terminated slice over the whole buffer.
    pub fn as_basic_c_str<'s>(&'s self) -> (r: BasicCStr<'s, Traits>)
        requires
            self.wf(),
        ensures
            r@ == self@,
            r.wf(),
    {
        BasicCStr::from_chars_with_null_unchecked(self.inner.as_slice())
    }

    /// Releases the underlying element buffer, terminator included.
    pub fn into_chars(self) -> (r: Vec<Traits::Char>)
        ensures
            r@ == self@,
    {
        self.inner
    }
}

} // verus!
