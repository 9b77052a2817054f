//! The encoding policy contract: element types, validation, comparison,
//! sentinel values, and the decode/encode primitives.
use vstd::prelude::*;
use core::cmp::Ordering;

verus! {

/// A character element type: the smallest addressable unit of a string's
/// backing buffer (a byte, a 16-bit code unit, or a scalar value).
pub trait Char: Copy + Sized {
    /// The numeric value of this element.
    spec fn spec_int(self) -> int;

    /// Two elements with the same numeric value are the same element.
    proof fn lemma_spec_int_injective(a: Self, b: Self)
        requires
            a.spec_int() == b.spec_int(),
        ensures
            a == b,
    ;

    /// What converting this element to the wider integer type yields. For
    /// elements whose value fits that type it is the value itself; an
    /// oversized element wraps.
    spec fn spec_to_int(self) -> int;

    /// Tests whether two elements hold the same value.
    fn char_eq(self, other: Self) -> (b: bool)
        ensures
            b <==> self.spec_int() == other.spec_int(),
    ;

    /// Tests whether this element's value is below another's.
    fn char_lt(self, other: Self) -> (b: bool)
        ensures
            b <==> self.spec_int() < other.spec_int(),
    ;

    /// Converts this element to the wider integer type.
    fn into_int(self) -> (r: i32)
        ensures
            r as int == self.spec_to_int(),
    ;

    /// Converts a wider integer back to an element: the element that
    /// converts to `val`, or none when no element does.
    fn from_int(val: i32) -> (r: Option<Self>)
        ensures
            match r {
                Some(c) => c.spec_to_int() == val as int,
                None => forall|c: Self| c.spec_to_int() != val as int,
            },
    ;

    /// Converts a wider integer to an element, truncating out-of-range
    /// values in an implementation-specific way: any representable value
    /// is preserved.
    fn from_int_lossy(val: i32) -> (r: Self)
        ensures
            (exists|c: Self| c.spec_to_int() == val as int) ==> r.spec_to_int() == val as int,
    ;
}

impl Char for u8 {
    open spec fn spec_int(self) -> int {
        self as int
    }

    open spec fn spec_to_int(self) -> int {
        self as int
    }

    proof fn lemma_spec_int_injective(a: Self, b: Self) {
    }

    fn char_eq(self, other: Self) -> (b: bool) {
        self == other
    }

    fn char_lt(self, other: Self) -> (b: bool) {
        self < other
    }

    fn into_int(self) -> (r: i32) {
        self as i32
    }

    fn from_int(val: i32) -> (r: Option<Self>) {
        if 0 <= val && val <= 255 {
            Some(val as u8)
        } else {
            None
        }
    }

    fn from_int_lossy(val: i32) -> (r: Self) {
        #[verifier::truncate] (val as u8)
    }
}

impl Char for u16 {
    open spec fn spec_int(self) -> int {
        self as int
    }

    open spec fn spec_to_int(self) -> int {
        self as int
    }

    proof fn lemma_spec_int_injective(a: Self, b: Self) {
    }

    fn char_eq(self, other: Self) -> (b: bool) {
        self == other
    }

    fn char_lt(self, other: Self) -> (b: bool) {
        self < other
    }

    fn into_int(self) -> (r: i32) {
        self as i32
    }

    fn from_int(val: i32) -> (r: Option<Self>) {
        if 0 <= val && val <= 0xffff {
            Some(val as u16)
        } else {
            None
        }
    }

    fn from_int_lossy(val: i32) -> (r: Self) {
        #[verifier::truncate] (val as u16)
    }
}

impl Char for u32 {
    open spec fn spec_int(self) -> int {
        self as int
    }

    open spec fn spec_to_int(self) -> int {
        self as i32 as int
    }

    proof fn lemma_spec_int_injective(a: Self, b: Self) {
    }

    fn char_eq(self, other: Self) -> (b: bool) {
        self == other
    }

    fn char_lt(self, other: Self) -> (b: bool) {
        self < other
    }

    fn into_int(self) -> (r: i32) {
        #[verifier::truncate] (self as i32)
    }

    fn from_int(val: i32) -> (r: Option<Self>) {
        let c = #[verifier::truncate] (val as u32);
        proof {
            assert(c as i32 == val) by (bit_vector)
                requires
                    c == val as u32,
            ;
        }
        Some(c)
    }

    fn from_int_lossy(val: i32) -> (r: Self) {
        let c = #[verifier::truncate] (val as u32);
        proof {
            assert(c as i32 == val) by (bit_vector)
                requires
                    c == val as u32,
            ;
        }
        c
    }
}

impl Char for char {
    open spec fn spec_int(self) -> int {
        self as u32 as int
    }

    open spec fn spec_to_int(self) -> int {
        self as u32 as int
    }

    proof fn lemma_spec_int_injective(a: Self, b: Self) {
        vstd::utf8::char_u32_cast(a, a as u32);
        vstd::utf8::char_u32_cast(b, b as u32);
    }

    fn char_eq(self, other: Self) -> (b: bool) {
        proof {
            vstd::utf8::char_u32_cast(self, self as u32);
            vstd::utf8::char_u32_cast(other, other as u32);
        }
        (self as u32) == (other as u32)
    }

    fn char_lt(self, other: Self) -> (b: bool) {
        (self as u32) < (other as u32)
    }

    fn into_int(self) -> (r: i32) {
        proof {
            vstd::utf8::char_is_scalar(self);
        }
        (self as u32) as i32
    }

    fn from_int(val: i32) -> (r: Option<Self>) {
        let v = #[verifier::truncate] (val as u32);
        proof {
            assert((vstd::utf8::is_scalar(v) && v <= 0x10ffff) ==> (0 <= val && v as int
                == val as int)) by (bit_vector)
                requires
                    v == val as u32,
            ;
        }
        match char::from_u32(v) {
            Some(c) => {
                proof {
                    vstd::utf8::char_is_scalar(c);
                }
                Some(c)
            },
            None => {
                proof {
                    assert forall|c: char| c.spec_to_int() != val as int by {
                        vstd::utf8::char_is_scalar(c);
                        let cv = c as u32;
                        assert(vstd::utf8::is_scalar(cv) ==> cv as int != val as int) by {
                            if cv as int == val as int {
                                assert(cv == v) by (bit_vector)
                                    requires
                                        v == val as u32,
                                        cv as int == val as int,
                                ;
                            }
                        }
                    }
                }
                None
            },
        }
    }

    fn from_int_lossy(val: i32) -> (r: Self) {
        let v = #[verifier::truncate] (val as u32);
        match char::from_u32(v) {
            Some(c) => {
                proof {
                    vstd::utf8::char_is_scalar(c);
                    assert(c as u32 as int == val as int ==> c.spec_to_int() == val as int);
                    assert((vstd::utf8::is_scalar(v) && v <= 0x10ffff) ==> (0 <= val
                        && v as int == val as int)) by (bit_vector)
                        requires
                            v == val as u32,
                    ;
                }
                c
            },
            None => {
                proof {
                    assert forall|c: char|
                        c.spec_to_int() != val as int by {
                        vstd::utf8::char_is_scalar(c);
                        let cv = c as u32;
                        if cv as int == val as int {
                            assert(cv == v) by (bit_vector)
                                requires
                                    v == val as u32,
                                    cv as int == val as int,
                            ;
                        }
                    }
                }
                '\0'
            },
        }
    }
}

/// An error reported by a failed whole-buffer validation: the position of
/// the first defective unit and, where determinable, its length.
pub trait ValidationError: Sized {
    /// The position of the first invalid unit.
    spec fn spec_pos(&self) -> int;

    /// The length of the defective unit, or none where the buffer ended
    /// before the unit was complete.
    spec fn spec_len(&self) -> Option<int>;

    /// The position of the first invalid unit.
    fn first_error_pos(&self) -> (r: usize)
        ensures
            r as int == self.spec_pos(),
    ;

    /// The length of the defective unit, if determinable.
    fn first_error_len(&self) -> (r: Option<usize>)
        ensures
            match r {
                Some(n) => self.spec_len() == Some(n as int),
                None => self.spec_len() is None,
            },
    ;
}

/// The error type of encodings whose validation cannot fail. The library
/// never constructs a value of it, and the private field keeps callers
/// from doing so.
#[derive(Clone, Copy, Debug)]
pub struct Infallible {
    no_value: (),
}

impl ValidationError for Infallible {
    closed spec fn spec_pos(&self) -> int {
        0
    }

    closed spec fn spec_len(&self) -> Option<int> {
        None
    }

    fn first_error_pos(&self) -> (r: usize) {
        0
    }

    fn first_error_len(&self) -> (r: Option<usize>) {
        None
    }
}

/// Lexicographic comparison of two element sequences by element value,
/// with shorter-is-less as the tie-break on equal prefixes.
pub open spec fn spec_lex_cmp<C: Char>(a: Seq<C>, b: Seq<C>) -> Ordering
    decreases a.len(),
{
    if a.len() == 0 && b.len() == 0 {
        Ordering::Equal
    } else if a.len() == 0 {
        Ordering::Less
    } else if b.len() == 0 {
        Ordering::Greater
    } else if a[0].spec_int() < b[0].spec_int() {
        Ordering::Less
    } else if b[0].spec_int() < a[0].spec_int() {
        Ordering::Greater
    } else {
        spec_lex_cmp(a.drop_first(), b.drop_first())
    }
}

proof fn lemma_lex_cmp_step<C: Char>(a: Seq<C>, b: Seq<C>, i: int)
    requires
        0 <= i < a.len(),
        0 <= i < b.len(),
        a[i].spec_int() == b[i].spec_int(),
    ensures
        spec_lex_cmp(a.skip(i), b.skip(i)) == spec_lex_cmp(a.skip(i + 1), b.skip(i + 1)),
{
    assert(a.skip(i).drop_first() =~= a.skip(i + 1));
    assert(b.skip(i).drop_first() =~= b.skip(i + 1));
    assert(a.skip(i)[0] == a[i]);
    assert(b.skip(i)[0] == b[i]);
}

/// Compares two element sequences lexicographically by element value,
/// breaking ties on length.
pub fn lex_compare<C: Char>(r1: &[C], r2: &[C]) -> (o: Ordering)
    ensures
        o == spec_lex_cmp(r1@, r2@),
{
    let n1 = r1.len();
    let n2 = r2.len();
    let mut i: usize = 0;
    proof {
        assert(r1@.skip(0) =~= r1@);
        assert(r2@.skip(0) =~= r2@);
    }
    while i < n1 && i < n2
        invariant
            0 <= i <= n1 && i <= n2,
            n1 == r1@.len() && n2 == r2@.len(),
            spec_lex_cmp(r1@, r2@) == spec_lex_cmp(r1@.skip(i as int), r2@.skip(i as int)),
        decreases n1 - i,
    {
        let a = r1[i];
        let b = r2[i];
        if a.char_lt(b) {
            assert(r1@.skip(i as int)[0] == r1@[i as int]);
            assert(r2@.skip(i as int)[0] == r2@[i as int]);
            return Ordering::Less;
        } else if b.char_lt(a) {
            assert(r1@.skip(i as int)[0] == r1@[i as int]);
            assert(r2@.skip(i as int)[0] == r2@[i as int]);
            return Ordering::Greater;
        }
        proof {
            lemma_lex_cmp_step(r1@, r2@, i as int);
        }
        i = i + 1;
    }
    if n1 < n2 {
        assert(r1@.skip(i as int).len() == 0);
        assert(r2@.skip(i as int).len() > 0);
        Ordering::Less
    } else if n1 == n2 {
        assert(r1@.skip(i as int).len() == 0);
        assert(r2@.skip(i as int).len() == 0);
        Ordering::Equal
    } else {
        assert(r2@.skip(i as int).len() == 0);
        assert(r1@.skip(i as int).len() > 0);
        Ordering::Greater
    }
}

/// The contract every encoding policy satisfies: whole-buffer validation,
/// the cheap subrange re-check, lexicographic comparison, and the zero
/// terminator and end-of-stream sentinels.
pub trait CharTraits {
    type Char: Char;

    type Error: ValidationError;

    /// Well-formedness of a whole buffer under this encoding.
    spec fn spec_valid(s: Seq<Self::Char>) -> bool;

    /// What the cheap subrange re-check tests: a boundary condition at each
    /// edge of the buffer, exact on subranges of well-formed buffers.
    spec fn spec_boundary_ok(s: Seq<Self::Char>) -> bool;

    /// True when `i` falls on a scalar boundary of the well-formed sequence
    /// `s` (including its two ends).
    spec fn spec_is_boundary(s: Seq<Self::Char>, i: int) -> bool;

    /// True when `c` is this encoding's zero terminator.
    spec fn spec_zero(c: Self::Char) -> bool;

    /// Position reported by a failed whole-buffer validation.
    spec fn spec_err_pos(s: Seq<Self::Char>) -> int;

    /// Defective-unit length reported by a failed whole-buffer validation.
    spec fn spec_err_len(s: Seq<Self::Char>) -> Option<int>;

    /// Position reported by a failed subrange re-check.
    spec fn spec_sub_err_pos(s: Seq<Self::Char>) -> int;

    /// Defective-unit length reported by a failed subrange re-check.
    spec fn spec_sub_err_len(s: Seq<Self::Char>) -> Option<int>;

    /// The empty buffer is well-formed.
    proof fn lemma_valid_empty()
        ensures
            Self::spec_valid(Seq::<Self::Char>::empty()),
    ;

    /// Concatenation closure: two independently well-formed buffers
    /// concatenate to a well-formed buffer.
    proof fn lemma_valid_concat(a: Seq<Self::Char>, b: Seq<Self::Char>)
        requires
            Self::spec_valid(a),
            Self::spec_valid(b),
        ensures
            Self::spec_valid(a + b),
    ;

    /// Both ends of a well-formed buffer are scalar boundaries.
    proof fn lemma_boundary_ends(s: Seq<Self::Char>)
        requires
            Self::spec_valid(s),
        ensures
            Self::spec_is_boundary(s, 0),
            Self::spec_is_boundary(s, s.len() as int),
    ;

    /// Splitting a well-formed buffer at a scalar boundary leaves two
    /// well-formed halves.
    proof fn lemma_split_at_boundary(s: Seq<Self::Char>, i: int)
        requires
            Self::spec_valid(s),
            0 <= i <= s.len(),
            Self::spec_is_boundary(s, i),
        ensures
            Self::spec_valid(s.subrange(0, i)),
            Self::spec_valid(s.subrange(i, s.len() as int)),
    ;

    /// The cheap re-check never rejects a well-formed buffer.
    proof fn lemma_valid_boundary_ok(s: Seq<Self::Char>)
        requires
            Self::spec_valid(s),
        ensures
            Self::spec_boundary_ok(s),
    ;

    /// On a subrange of a well-formed buffer, passing the cheap re-check
    /// implies full well-formedness of the subrange.
    proof fn lemma_boundary_ok_subrange(s: Seq<Self::Char>, i: int, j: int)
        requires
            Self::spec_valid(s),
            0 <= i <= j <= s.len(),
            Self::spec_boundary_ok(s.subrange(i, j)),
        ensures
            Self::spec_valid(s.subrange(i, j)),
    ;

    /// A non-empty well-formed window inside a well-formed buffer sits on
    /// scalar boundaries: no valid unit sequence can match across a scalar
    /// boundary.
    proof fn lemma_valid_window(s: Seq<Self::Char>, i: int, j: int)
        requires
            Self::spec_valid(s),
            0 <= i < j <= s.len(),
            Self::spec_valid(s.subrange(i, j)),
        ensures
            Self::spec_is_boundary(s, i),
            Self::spec_is_boundary(s, j),
    ;

    /// A zero terminator alone is a well-formed buffer.
    proof fn lemma_zero_term_valid(c: Self::Char)
        requires
            Self::spec_zero(c),
        ensures
            Self::spec_valid(seq![c]),
    ;

    /// A zero terminator inside a well-formed buffer is a whole scalar:
    /// boundaries fall on both of its sides.
    proof fn lemma_zero_term_boundary(s: Seq<Self::Char>, i: int)
        requires
            Self::spec_valid(s),
            0 <= i < s.len(),
            Self::spec_zero(s[i]),
        ensures
            Self::spec_is_boundary(s, i),
            Self::spec_is_boundary(s, i + 1),
    ;

    /// Scans the whole buffer; succeeds exactly on well-formed input, and
    /// otherwise reports the first defective position and length.
    fn validate_range(buf: &[Self::Char]) -> (r: Result<(), Self::Error>)
        ensures
            r is Ok <==> Self::spec_valid(buf@),
            r is Err ==> r->Err_0.spec_pos() == Self::spec_err_pos(buf@),
            r is Err ==> r->Err_0.spec_len() == Self::spec_err_len(buf@),
    ;

    /// Re-validates a buffer cut from a previously validated one, checking
    /// only a bounded window at each edge. Succeeds exactly when the edge
    /// condition holds; on a true subrange of a validated buffer that is
    /// exactly full well-formedness.
    fn validate_subrange(buf: &[Self::Char]) -> (r: Result<(), Self::Error>)
        ensures
            r is Ok <==> Self::spec_boundary_ok(buf@),
            r is Err ==> (r->Err_0).spec_pos() == Self::spec_sub_err_pos(buf@),
            r is Err ==> (r->Err_0).spec_len() == Self::spec_sub_err_len(buf@),
    ;

    /// Compares two buffers lexicographically by raw element value with a
    /// length tie-break. For UTF-16 this is code-unit order, kept for bit
    /// compatibility: surrogate units sort below BMP values above 0xE000
    /// even though they encode larger scalars, so the order need not agree
    /// with scalar-value order.
    fn compare(r1: &[Self::Char], r2: &[Self::Char]) -> (r: Result<
        Ordering,
        Self::Error,
    >)
        ensures
            r == Ok::<Ordering, Self::Error>(spec_lex_cmp(r1@, r2@)),
    ;

    /// The element that terminates null-terminated strings.
    fn zero_term() -> (c: Self::Char)
        ensures
            Self::spec_zero(c),
    ;

    /// Tests whether `c` is the zero terminator.
    fn is_zero_term(c: Self::Char) -> (b: bool)
        ensures
            b <==> Self::spec_zero(c),
    ;

    /// The end-of-stream sentinel: a negative value, which no element's
    /// numeric value can equal.
    fn eof() -> (r: i32)
        ensures
            r == -1,
            forall|c: Self::Char| c.spec_int() != r as int,
    ;
}

/// The fast path never rejects a truly valid split: cutting a well-formed
/// buffer at any scalar boundary leaves two halves that are themselves
/// well-formed and pass the cheap subrange re-check.
pub proof fn lemma_split_passes_subrange_check<Traits: CharTraits>(s: Seq<Traits::Char>, i: int)
    requires
        Traits::spec_valid(s),
        0 <= i <= s.len(),
        Traits::spec_is_boundary(s, i),
    ensures
        Traits::spec_valid(s.subrange(0, i)),
        Traits::spec_valid(s.subrange(i, s.len() as int)),
        Traits::spec_boundary_ok(s.subrange(0, i)),
        Traits::spec_boundary_ok(s.subrange(i, s.len() as int)),
{
    Traits::lemma_split_at_boundary(s, i);
    Traits::lemma_valid_boundary_ok(s.subrange(0, i));
    Traits::lemma_valid_boundary_ok(s.subrange(i, s.len() as int));
}

/// Decode and encode primitives for encodings whose buffers carry Unicode
/// scalar values.
pub trait IntoChars: CharTraits {
    /// The encoding of one scalar as a unit sequence.
    spec fn spec_encode(c: char) -> Seq<Self::Char>;

    /// The reference forward decoder: the first scalar of the buffer and
    /// the number of units it occupies, or none on malformed input.
    spec fn spec_decode(s: Seq<Self::Char>) -> Option<(char, int)>;

    /// The longest encoding of any scalar, in units.
    spec fn spec_max_len() -> int;

    /// Every scalar's encoding is short, non-empty and well-formed.
    proof fn lemma_encode_wf(c: char)
        ensures
            1 <= Self::spec_encode(c).len() <= Self::spec_max_len(),
            Self::spec_valid(Self::spec_encode(c)),
    ;

    /// Round trip: decoding an encoded scalar yields the scalar back.
    proof fn lemma_decode_encode(c: char)
        ensures
            Self::spec_decode(Self::spec_encode(c)) == Some(
                (c, Self::spec_encode(c).len() as int),
            ),
    ;

    /// On a non-empty well-formed buffer the decoder succeeds, consumes a
    /// whole leading scalar, and leaves a well-formed remainder. In
    /// particular, re-encoding the decoded scalar reproduces the consumed
    /// units.
    proof fn lemma_decode_valid(s: Seq<Self::Char>)
        requires
            Self::spec_valid(s),
            s.len() > 0,
        ensures
            match Self::spec_decode(s) {
                Some((c, n)) => {
                    &&& 1 <= n <= s.len()
                    &&& Self::spec_encode(c) == s.subrange(0, n)
                    &&& Self::spec_valid(s.subrange(n, s.len() as int))
                    &&& Self::spec_is_boundary(s, n)
                },
                None => false,
            },
    ;

    /// Decodes the first scalar of the buffer, returning it and the number
    /// of units consumed.
    fn decode_buf(buf: &[Self::Char]) -> (r: Option<(char, usize)>)
        ensures
            r is Some <==> Self::spec_decode(buf@) is Some,
            r is Some ==> Self::spec_decode(buf@) == Some(((r->0).0, (r->0).1 as int)),
    ;

    /// The longest encoding of any scalar, in units.
    fn max_encoding_len() -> (n: usize)
        ensures
            n as int == Self::spec_max_len(),
    ;

    /// The number of units `c` encodes to.
    fn encoding_len(c: char) -> (n: usize)
        ensures
            n as int == Self::spec_encode(c).len(),
    ;

    /// Encodes one scalar as a unit sequence.
    fn encode(c: char) -> (r: Vec<Self::Char>)
        ensures
            r@ == Self::spec_encode(c),
    ;
}

/// Backward decoding, for encodings that can be walked from the tail.
pub trait DecodeRev: IntoChars {
    /// The reference backward decoder: the last scalar of the buffer and
    /// the number of units it occupies, or none on malformed input.
    spec fn spec_decode_back(s: Seq<Self::Char>) -> Option<(char, int)>;

    /// On a non-empty well-formed buffer the backward decoder succeeds,
    /// consumes a whole trailing scalar, and leaves a well-formed prefix.
    proof fn lemma_decode_back_valid(s: Seq<Self::Char>)
        requires
            Self::spec_valid(s),
            s.len() > 0,
        ensures
            match Self::spec_decode_back(s) {
                Some((c, n)) => {
                    &&& 1 <= n <= s.len()
                    &&& Self::spec_encode(c) == s.subrange(s.len() - n, s.len() as int)
                    &&& Self::spec_valid(s.subrange(0, s.len() - n))
                    &&& Self::spec_is_boundary(s, s.len() - n)
                },
                None => false,
            },
    ;

    /// Decodes the last scalar of the buffer, returning it and the number
    /// of units consumed from the end.
    fn decode_back(buf: &[Self::Char]) -> (r: Option<(char, usize)>)
        ensures
            r is Some <==> Self::spec_decode_back(buf@) is Some,
            r is Some ==> Self::spec_decode_back(buf@) == Some(((r->0).0, (r->0).1 as int)),
    ;
}

} // verus!
