//! Null-terminated validated slices, and the raw byte policy used for
//! interoperability strings that carry no text semantics.
use vstd::prelude::*;
use core::cmp::Ordering;
use vstd::slice::slice_subrange;
use crate::str::BasicStr;
use crate::traits::CharTraits;
use crate::traits::Infallible;
use crate::traits::lex_compare;
use crate::utf::UtfCharTraits;

verus! {

/// The opaque byte policy: no validation, raw lexicographic comparison,
/// and the zero byte as terminator.
pub struct RawCharTraits {
    marker: (),
}

impl CharTraits for RawCharTraits {
    type Char = u8;

    type Error = Infallible;

    open spec fn spec_valid(s: Seq<u8>) -> bool {
        true
    }

    open spec fn spec_boundary_ok(s: Seq<u8>) -> bool {
        true
    }

    open spec fn spec_is_boundary(s: Seq<u8>, i: int) -> bool {
        0 <= i <= s.len()
    }

    open spec fn spec_zero(c: u8) -> bool {
        c == 0
    }

    open spec fn spec_err_pos(s: Seq<u8>) -> int {
        0
    }

    open spec fn spec_err_len(s: Seq<u8>) -> Option<int> {
        None
    }

    open spec fn spec_sub_err_pos(s: Seq<u8>) -> int {
        0
    }

    open spec fn spec_sub_err_len(s: Seq<u8>) -> Option<int> {
        None
    }

    proof fn lemma_valid_empty() {
    }

    proof fn lemma_valid_concat(a: Seq<u8>, b: Seq<u8>) {
    }

    proof fn lemma_boundary_ends(s: Seq<u8>) {
    }

    proof fn lemma_split_at_boundary(s: Seq<u8>, i: int) {
    }

    proof fn lemma_valid_boundary_ok(s: Seq<u8>) {
    }

    proof fn lemma_boundary_ok_subrange(s: Seq<u8>, i: int, j: int) {
    }

    proof fn lemma_valid_window(s: Seq<u8>, i: int, j: int) {
    }

    proof fn lemma_zero_term_valid(c: u8) {
    }

    proof fn lemma_zero_term_boundary(s: Seq<u8>, i: int) {
    }

    fn validate_range(buf: &[u8]) -> (r: Result<(), Infallible>) {
        Ok(())
    }

    fn validate_subrange(buf: &[u8]) -> (r: Result<(), Infallible>) {
        Ok(())
    }

    fn compare(r1: &[u8], r2: &[u8]) -> (r: Result<Ordering, Infallible>) {
        Ok(lex_compare(r1, r2))
    }

    fn zero_term() -> (c: u8) {
        0
    }

    fn is_zero_term(c: u8) -> (b: bool) {
        c == 0
    }

    fn eof() -> (r: i32) {
        -1
    }
}

/// Well-formedness of a null-terminated buffer: non-empty, the last
/// element is the zero terminator, no earlier element is, and the whole
/// buffer (terminator included) is well-formed under the policy.
pub open spec fn cstr_valid<Traits: CharTraits>(s: Seq<Traits::Char>) -> bool {
    &&& s.len() >= 1
    &&& Traits::spec_zero(s[s.len() - 1])
    &&& forall|k: int| 0 <= k < s.len() - 1 ==> !Traits::spec_zero(#[trigger] s[k])
    &&& Traits::spec_valid(s)
}

/// Index of the first zero terminator in `s`, or none.
pub open spec fn first_zero<Traits: CharTraits>(s: Seq<Traits::Char>) -> Option<int>
    decreases s.len(),
{
    if s.len() == 0 {
        None
    } else if Traits::spec_zero(s[0]) {
        Some(0)
    } else {
        match first_zero::<Traits>(s.skip(1)) {
            Some(i) => Some(i + 1),
            None => None,
        }
    }
}

/// A borrowed null-terminated element sequence: validated, ending in
/// exactly one zero terminator, with none earlier.
pub struct BasicCStr<'a, Traits: CharTraits> {
    chars: &'a [Traits::Char],
}

impl<'a, Traits: CharTraits> Clone for BasicCStr<'a, Traits> {
    fn clone(&self) -> (r: Self)
        ensures
            r == *self,
    {
        BasicCStr { chars: self.chars }
    }
}

impl<'a, Traits: CharTraits> Copy for BasicCStr<'a, Traits> {

}

impl<'a, Traits: CharTraits> View for BasicCStr<'a, Traits> {
    type V = Seq<Traits::Char>;

    closed spec fn view(&self) -> Seq<Traits::Char> {
        self.chars@
    }
}

impl<'a, Traits: CharTraits> BasicCStr<'a, Traits> {
    /// The invariant every live value of this type satisfies.
    pub open spec fn wf(&self) -> bool {
        cstr_valid::<Traits>(self@)
    }

    /// Wraps a slice as a null-terminated string exactly when its last
    /// element is the zero terminator, no earlier element is, and the
    /// whole buffer (terminator included) validates.
    pub fn from_chars_with_null(chars: &'a [Traits::Char]) -> (r: Option<BasicCStr<'a, Traits>>)
        ensures
            r is Some <==> cstr_valid::<Traits>(chars@),
            r is Some ==> (r->0)@ == chars@ && (r->0).wf(),
    {
        let n = chars.len();
        if n == 0 {
            return None;
        }
        if !Traits::is_zero_term(chars[n - 1]) {
            return None;
        }
        let mut i: usize = 0;
        while i < n - 1
            invariant
                0 <= i <= n - 1,
                n == chars@.len(),
                forall|k: int| 0 <= k < i ==> !Traits::spec_zero(#[trigger] chars@[k]),
            decreases n - i,
        {
            if Traits::is_zero_term(chars[i]) {
                return None;
            }
            i = i + 1;
        }
        match Traits::validate_range(chars) {
            Ok(()) => Some(BasicCStr { chars }),
            Err(_) => None,
        }
    }

    /// Wraps a slice without running any check. The caller proves the
    /// null-terminated invariant instead.
    pub fn from_chars_with_null_unchecked(chars: &'a [Traits::Char]) -> (r: BasicCStr<
        'a,
        Traits,
    >)
        requires
            cstr_valid::<Traits>(chars@),
        ensures
            r@ == chars@,
            r.wf(),
    {
        BasicCStr { chars }
    }

    /// Finds the first zero terminator in `chars`, validates the prefix up
    /// to and including it, and returns that null-terminated string with
    /// the remainder of the buffer. Fails when no terminator exists or the
    /// prefix does not validate.
    pub fn split_from_chars(chars: &'a [Traits::Char]) -> (r: Option<
        (BasicCStr<'a, Traits>, &'a [Traits::Char]),
    >)
        ensures
            r is Some <==> match first_zero::<Traits>(chars@) {
                Some(i) => Traits::spec_valid(chars@.subrange(0, i + 1)),
                None => false,
            },
            r is Some ==> match first_zero::<Traits>(chars@) {
                Some(i) => {
                    &&& (r->0).0@ == chars@.subrange(0, i + 1)
                    &&& (r->0).0.wf()
                    &&& (r->0).1@ == chars@.subrange(i + 1, chars@.len() as int)
                },
                None => false,
            },
    {
        let ghost s = chars@;
        let n = chars.len();
        let mut i: usize = 0;
        proof {
            assert(s.skip(0) =~= s);
        }
        while i < n
            invariant
                0 <= i <= n,
                n == s.len(),
                s == chars@,
                forall|k: int| 0 <= k < i ==> !Traits::spec_zero(#[trigger] s[k]),
                first_zero::<Traits>(s) == match first_zero::<Traits>(s.skip(i as int)) {
                    Some(x) => Some(x + i),
                    None => None::<int>,
                },
            decreases n - i,
        {
            let c = chars[i];
            proof {
                assert(s.skip(i as int)[0] == s[i as int]);
                assert(s.skip(i as int).skip(1) =~= s.skip(i + 1));
            }
            if Traits::is_zero_term(c) {
                proof {
                    assert(first_zero::<Traits>(s) == Some(i as int));
                }
                let left = slice_subrange(chars, 0, i + 1);
                let right = slice_subrange(chars, i + 1, n);
                match Traits::validate_range(left) {
                    Ok(()) => {
                        proof {
                            assert(left@[left@.len() - 1] == s[i as int]);
                            assert(forall|k: int|
                                0 <= k < left@.len() - 1 ==> !Traits::spec_zero(
                                    #[trigger] left@[k],
                                ));
                        }
                        return Some((BasicCStr { chars: left }, right));
                    },
                    Err(_) => {
                        return None;
                    },
                }
            }
            i = i + 1;
        }
        proof {
            assert(s.skip(n as int) =~= Seq::<Traits::Char>::empty());
            assert(first_zero::<Traits>(s) is None);
        }
        None
    }

    /// The underlying elements, terminator included.
    pub fn as_chars(&self) -> (r: &'a [Traits::Char])
        ensures
            r@ == self@,
    {
        self.chars
    }

    /// The length of the buffer, terminator included.
    pub fn len(&self) -> (n: usize)
        ensures
            n == self@.len(),
    {
        self.chars.len()
    }

    /// The whole buffer, terminator included, as a validated slice.
    pub fn as_basic_str_with_nul(&self) -> (r: BasicStr<'a, Traits>)
        requires
            self.wf(),
        ensures
            r@ == self@,
            r.wf(),
    {
        BasicStr::from_chars_unchecked(self.chars)
    }

    /// The buffer without its terminator, as a validated slice: the zero
    /// terminator is a whole scalar, so the prefix before it is
    /// well-formed.
    pub fn as_basic_str_without_nul(&self) -> (r: BasicStr<'a, Traits>)
        requires
            self.wf(),
        ensures
            r@ == self@.subrange(0, self@.len() - 1),
            r.wf(),
    {
        proof {
            Traits::lemma_zero_term_boundary(self@, self@.len() - 1);
            Traits::lemma_split_at_boundary(self@, self@.len() - 1);
        }
        let n = self.chars.len();
        BasicStr::from_chars_unchecked(slice_subrange(self.chars, 0, n - 1))
    }
}

/// A null-terminated opaque byte string.
pub type CStr<'a> = BasicCStr<'a, RawCharTraits>;

/// A null-terminated validated slice under the Unicode policy for the
/// element type.
pub type UtfCStr<'a, CharT> = BasicCStr<'a, UtfCharTraits<CharT>>;

/// A null-terminated validated UTF-8 byte slice.
pub type Utf8CStr<'a> = UtfCStr<'a, u8>;

/// A null-terminated validated UTF-16 code-unit slice.
pub type Utf16CStr<'a> = UtfCStr<'a, u16>;

/// A null-terminated validated slice of scalar values.
pub type Utf32CStr<'a> = UtfCStr<'a, char>;

} // verus!
