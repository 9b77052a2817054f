//! The Unicode encoding policies: UTF-8 over bytes, UTF-16 over 16-bit
//! code units, and UTF-32 over scalar values.
use vstd::prelude::*;
use core::cmp::Ordering;
use crate::traits::CharTraits;
use crate::traits::DecodeRev;
use crate::traits::Infallible;
use crate::traits::IntoChars;
use crate::traits::ValidationError;
use crate::traits::lex_compare;
use crate::utf16::lemma_low_preceded_by_high;
use crate::utf16::lemma_utf16_concat;
use crate::utf16::lemma_utf16_boundary_ok_subrange;
use crate::utf16::lemma_utf16_decode_first_valid;
use crate::utf16::lemma_utf16_decode_last_valid;
use crate::utf16::lemma_utf16_round_trip;
use crate::utf16::lemma_utf16_split;
use crate::utf16::lemma_utf16_valid_boundary_ok;
use crate::utf16::lemma_utf16_zero_boundary;
use crate::utf16::utf16_boundary_ok;
use crate::utf16::utf16_decode;
use crate::utf16::utf16_decode_back;
use crate::utf16::utf16_decode_first;
use crate::utf16::utf16_decode_last;
use crate::utf16::utf16_encode;
use crate::utf16::utf16_encode_scalar;
use crate::utf16::utf16_encoding_len;
use crate::utf16::utf16_err_len;
use crate::utf16::utf16_err_pos;
use crate::utf16::utf16_is_boundary;
use crate::utf16::utf16_validate_range;
use crate::utf16::utf16_validate_subrange;
use crate::utf16::valid_utf16;
use crate::utf8::lemma_boundary_ok_subrange;
use crate::utf8::lemma_decode_first_valid;
use crate::utf8::lemma_decode_last_valid;
use crate::utf8::lemma_utf8_round_trip;
use crate::utf8::lemma_valid_boundary_ok;
use crate::utf8::lemma_zero_boundary;
use crate::utf8::utf8_boundary_ok;
use crate::utf8::utf8_decode;
use crate::utf8::utf8_decode_back;
use crate::utf8::utf8_decode_first;
use crate::utf8::utf8_decode_last;
use crate::utf8::utf8_encode;
use crate::utf8::utf8_encoding_len;
use crate::utf8::utf8_err_len;
use crate::utf8::utf8_err_pos;
use crate::utf8::utf8_validate_range;
use crate::utf8::utf8_validate_subrange;

verus! {

/// A Unicode encoding policy for the element type `T`.
pub struct UtfCharTraits<T> {
    marker: core::marker::PhantomData<T>,
}

/// A defect found while validating a Unicode buffer: the position of the
/// first invalid unit and, where determinable, the defective length.
#[derive(Clone, Copy, Debug)]
pub struct UtfError {
    pub(crate) pos: usize,
    pub(crate) len: Option<usize>,
}

impl ValidationError for UtfError {
    closed spec fn spec_pos(&self) -> int {
        self.pos as int
    }

    closed spec fn spec_len(&self) -> Option<int> {
        match self.len {
            Some(n) => Some(n as int),
            None => None,
        }
    }

    fn first_error_pos(&self) -> (r: usize) {
        self.pos
    }

    fn first_error_len(&self) -> (r: Option<usize>) {
        self.len
    }
}

impl CharTraits for UtfCharTraits<u8> {
    type Char = u8;

    type Error = UtfError;

    open spec fn spec_valid(s: Seq<u8>) -> bool {
        vstd::utf8::valid_utf8(s)
    }

    open spec fn spec_boundary_ok(s: Seq<u8>) -> bool {
        utf8_boundary_ok(s)
    }

    open spec fn spec_is_boundary(s: Seq<u8>, i: int) -> bool {
        vstd::utf8::is_char_boundary(s, i)
    }

    open spec fn spec_zero(c: u8) -> bool {
        c == 0
    }

    open spec fn spec_err_pos(s: Seq<u8>) -> int {
        utf8_err_pos(s)
    }

    open spec fn spec_err_len(s: Seq<u8>) -> Option<int> {
        utf8_err_len(s)
    }

    open spec fn spec_sub_err_pos(s: Seq<u8>) -> int {
        crate::utf8::utf8_sub_err_pos(s)
    }

    open spec fn spec_sub_err_len(s: Seq<u8>) -> Option<int> {
        crate::utf8::utf8_sub_err_len(s)
    }

    proof fn lemma_valid_empty() {
    }

    proof fn lemma_valid_concat(a: Seq<u8>, b: Seq<u8>) {
        vstd::utf8::valid_utf8_concat(a, b);
    }

    proof fn lemma_boundary_ends(s: Seq<u8>) {
        vstd::utf8::is_char_boundary_start_end_of_seq(s);
    }

    proof fn lemma_split_at_boundary(s: Seq<u8>, i: int) {
        vstd::utf8::valid_utf8_split(s, i);
    }

    proof fn lemma_valid_boundary_ok(s: Seq<u8>) {
        lemma_valid_boundary_ok(s);
    }

    proof fn lemma_boundary_ok_subrange(s: Seq<u8>, i: int, j: int) {
        lemma_boundary_ok_subrange(s, i, j);
    }

    proof fn lemma_valid_window(s: Seq<u8>, i: int, j: int) {
        crate::utf8::lemma_utf8_valid_window(s, i, j);
    }

    proof fn lemma_zero_term_valid(c: u8) {
        let e = seq![c];
        assert(vstd::utf8::is_leading_byte_width_1(e[0]));
        assert(c & 0x7f == 0) by (bit_vector)
            requires
                c == 0,
        ;
        assert(vstd::utf8::not_surrogate(vstd::utf8::decode_first_codepoint(e)));
        assert(vstd::utf8::valid_first_scalar(e));
        assert(vstd::utf8::pop_first_scalar(e) =~= Seq::<u8>::empty());
        assert(vstd::utf8::valid_utf8(vstd::utf8::pop_first_scalar(e)));
        assert(vstd::utf8::valid_utf8(e));
    }

    proof fn lemma_zero_term_boundary(s: Seq<u8>, i: int) {
        lemma_zero_boundary(s, i);
    }

    fn validate_range(buf: &[u8]) -> (r: Result<(), UtfError>) {
        match utf8_validate_range(buf) {
            Ok(()) => Ok(()),
            Err(p) => Err(UtfError { pos: p.0, len: p.1 }),
        }
    }

    fn validate_subrange(buf: &[u8]) -> (r: Result<(), UtfError>) {
        match utf8_validate_subrange(buf) {
            Ok(()) => Ok(()),
            Err(p) => Err(UtfError { pos: p.0, len: p.1 }),
        }
    }

    fn compare(r1: &[u8], r2: &[u8]) -> (r: Result<Ordering, UtfError>) {
        Ok(lex_compare(r1, r2))
    }

    fn zero_term() -> (c: u8) {
        0
    }

    fn is_zero_term(c: u8) -> (b: bool) {
        c == 0
    }

    fn eof() -> (r: i32) {
        -1
    }
}

impl IntoChars for UtfCharTraits<u8> {
    open spec fn spec_encode(c: char) -> Seq<u8> {
        vstd::utf8::encode_scalar(c as u32)
    }

    open spec fn spec_decode(s: Seq<u8>) -> Option<(char, int)> {
        utf8_decode_first(s)
    }

    open spec fn spec_max_len() -> int {
        4
    }

    proof fn lemma_encode_wf(c: char) {
        lemma_utf8_round_trip(c);
    }

    proof fn lemma_decode_encode(c: char) {
        lemma_utf8_round_trip(c);
    }

    proof fn lemma_decode_valid(s: Seq<u8>) {
        lemma_decode_first_valid(s);
    }

    fn decode_buf(buf: &[u8]) -> (r: Option<(char, usize)>) {
        utf8_decode(buf)
    }

    fn max_encoding_len() -> (n: usize) {
        4
    }

    fn encoding_len(c: char) -> (n: usize) {
        utf8_encoding_len(c)
    }

    fn encode(c: char) -> (r: Vec<u8>) {
        utf8_encode(c)
    }
}

impl DecodeRev for UtfCharTraits<u8> {
    open spec fn spec_decode_back(s: Seq<u8>) -> Option<(char, int)> {
        utf8_decode_last(s)
    }

    proof fn lemma_decode_back_valid(s: Seq<u8>) {
        lemma_decode_last_valid(s);
    }

    fn decode_back(buf: &[u8]) -> (r: Option<(char, usize)>) {
        utf8_decode_back(buf)
    }
}

impl CharTraits for UtfCharTraits<u16> {
    type Char = u16;

    type Error = UtfError;

    open spec fn spec_valid(s: Seq<u16>) -> bool {
        valid_utf16(s)
    }

    open spec fn spec_boundary_ok(s: Seq<u16>) -> bool {
        utf16_boundary_ok(s)
    }

    open spec fn spec_is_boundary(s: Seq<u16>, i: int) -> bool {
        utf16_is_boundary(s, i)
    }

    open spec fn spec_zero(c: u16) -> bool {
        c == 0
    }

    open spec fn spec_err_pos(s: Seq<u16>) -> int {
        utf16_err_pos(s)
    }

    open spec fn spec_err_len(s: Seq<u16>) -> Option<int> {
        utf16_err_len(s)
    }

    open spec fn spec_sub_err_pos(s: Seq<u16>) -> int {
        crate::utf16::utf16_sub_err_pos(s)
    }

    open spec fn spec_sub_err_len(s: Seq<u16>) -> Option<int> {
        crate::utf16::utf16_sub_err_len(s)
    }

    proof fn lemma_valid_empty() {
    }

    proof fn lemma_valid_concat(a: Seq<u16>, b: Seq<u16>) {
        lemma_utf16_concat(a, b);
    }

    proof fn lemma_boundary_ends(s: Seq<u16>) {
        if s.len() > 0 && crate::utf16::is_low_surrogate(s[0]) {
            lemma_low_preceded_by_high(s, 0);
        }
    }

    proof fn lemma_split_at_boundary(s: Seq<u16>, i: int) {
        lemma_utf16_split(s, i);
    }

    proof fn lemma_valid_boundary_ok(s: Seq<u16>) {
        lemma_utf16_valid_boundary_ok(s);
    }

    proof fn lemma_boundary_ok_subrange(s: Seq<u16>, i: int, j: int) {
        lemma_utf16_boundary_ok_subrange(s, i, j);
    }

    proof fn lemma_valid_window(s: Seq<u16>, i: int, j: int) {
        crate::utf16::lemma_utf16_valid_window(s, i, j);
    }

    proof fn lemma_zero_term_valid(c: u16) {
        let e = seq![c];
        assert(crate::utf16::utf16_first_width(e) == 1);
        assert(e.skip(1) =~= Seq::<u16>::empty());
        assert(valid_utf16(e.skip(1)));
        assert(valid_utf16(e));
    }

    proof fn lemma_zero_term_boundary(s: Seq<u16>, i: int) {
        lemma_utf16_zero_boundary(s, i);
    }

    fn validate_range(buf: &[u16]) -> (r: Result<(), UtfError>) {
        match utf16_validate_range(buf) {
            Ok(()) => Ok(()),
            Err(p) => Err(UtfError { pos: p.0, len: p.1 }),
        }
    }

    fn validate_subrange(buf: &[u16]) -> (r: Result<(), UtfError>) {
        match utf16_validate_subrange(buf) {
            Ok(()) => Ok(()),
            Err(p) => Err(UtfError { pos: p.0, len: p.1 }),
        }
    }

    fn compare(r1: &[u16], r2: &[u16]) -> (r: Result<Ordering, UtfError>) {
        Ok(lex_compare(r1, r2))
    }

    fn zero_term() -> (c: u16) {
        0
    }

    fn is_zero_term(c: u16) -> (b: bool) {
        c == 0
    }

    fn eof() -> (r: i32) {
        -1
    }
}

impl IntoChars for UtfCharTraits<u16> {
    open spec fn spec_encode(c: char) -> Seq<u16> {
        utf16_encode_scalar(c as u32 as int)
    }

    open spec fn spec_decode(s: Seq<u16>) -> Option<(char, int)> {
        utf16_decode_first(s)
    }

    open spec fn spec_max_len() -> int {
        2
    }

    proof fn lemma_encode_wf(c: char) {
        lemma_utf16_round_trip(c);
    }

    proof fn lemma_decode_encode(c: char) {
        lemma_utf16_round_trip(c);
    }

    proof fn lemma_decode_valid(s: Seq<u16>) {
        lemma_utf16_decode_first_valid(s);
    }

    fn decode_buf(buf: &[u16]) -> (r: Option<(char, usize)>) {
        utf16_decode(buf)
    }

    fn max_encoding_len() -> (n: usize) {
        2
    }

    fn encoding_len(c: char) -> (n: usize) {
        utf16_encoding_len(c)
    }

    fn encode(c: char) -> (r: Vec<u16>) {
        utf16_encode(c)
    }
}

impl DecodeRev for UtfCharTraits<u16> {
    open spec fn spec_decode_back(s: Seq<u16>) -> Option<(char, int)> {
        utf16_decode_last(s)
    }

    proof fn lemma_decode_back_valid(s: Seq<u16>) {
        lemma_utf16_decode_last_valid(s);
    }

    fn decode_back(buf: &[u16]) -> (r: Option<(char, usize)>) {
        utf16_decode_back(buf)
    }
}

impl CharTraits for UtfCharTraits<char> {
    type Char = char;

    type Error = Infallible;

    open spec fn spec_valid(s: Seq<char>) -> bool {
        true
    }

    open spec fn spec_boundary_ok(s: Seq<char>) -> bool {
        true
    }

    open spec fn spec_is_boundary(s: Seq<char>, i: int) -> bool {
        0 <= i <= s.len()
    }

    open spec fn spec_zero(c: char) -> bool {
        c == '\0'
    }

    open spec fn spec_err_pos(s: Seq<char>) -> int {
        0
    }

    open spec fn spec_err_len(s: Seq<char>) -> Option<int> {
        None
    }

    open spec fn spec_sub_err_pos(s: Seq<char>) -> int {
        0
    }

    open spec fn spec_sub_err_len(s: Seq<char>) -> Option<int> {
        None
    }

    proof fn lemma_valid_empty() {
    }

    proof fn lemma_valid_concat(a: Seq<char>, b: Seq<char>) {
    }

    proof fn lemma_boundary_ends(s: Seq<char>) {
    }

    proof fn lemma_split_at_boundary(s: Seq<char>, i: int) {
    }

    proof fn lemma_valid_boundary_ok(s: Seq<char>) {
    }

    proof fn lemma_boundary_ok_subrange(s: Seq<char>, i: int, j: int) {
    }

    proof fn lemma_valid_window(s: Seq<char>, i: int, j: int) {
    }

    proof fn lemma_zero_term_valid(c: char) {
    }

    proof fn lemma_zero_term_boundary(s: Seq<char>, i: int) {
    }

    fn validate_range(buf: &[char]) -> (r: Result<(), Infallible>) {
        Ok(())
    }

    fn validate_subrange(buf: &[char]) -> (r: Result<(), Infallible>) {
        Ok(())
    }

    fn compare(r1: &[char], r2: &[char]) -> (r: Result<Ordering, Infallible>) {
        Ok(lex_compare(r1, r2))
    }

    fn zero_term() -> (c: char) {
        '\0'
    }

    fn is_zero_term(c: char) -> (b: bool) {
        proof {
            vstd::utf8::char_u32_cast(c, c as u32);
            vstd::utf8::char_u32_cast('\0', '\0' as u32);
        }
        (c as u32) == 0
    }

    fn eof() -> (r: i32) {
        -1
    }
}

impl IntoChars for UtfCharTraits<char> {
    open spec fn spec_encode(c: char) -> Seq<char> {
        seq![c]
    }

    open spec fn spec_decode(s: Seq<char>) -> Option<(char, int)> {
        if s.len() > 0 {
            Some((s[0], 1))
        } else {
            None
        }
    }

    open spec fn spec_max_len() -> int {
        1
    }

    proof fn lemma_encode_wf(c: char) {
    }

    proof fn lemma_decode_encode(c: char) {
    }

    proof fn lemma_decode_valid(s: Seq<char>) {
        assert(Self::spec_encode(s[0]) =~= s.subrange(0, 1));
    }

    fn decode_buf(buf: &[char]) -> (r: Option<(char, usize)>) {
        if buf.len() == 0 {
            None
        } else {
            Some((buf[0], 1))
        }
    }

    fn max_encoding_len() -> (n: usize) {
        1
    }

    fn encoding_len(c: char) -> (n: usize) {
        1
    }

    fn encode(c: char) -> (r: Vec<char>) {
        let mut v: Vec<char> = Vec::new();
        v.push(c);
        proof {
            assert(v@ =~= seq![c]);
        }
        v
    }
}

impl DecodeRev for UtfCharTraits<char> {
    open spec fn spec_decode_back(s: Seq<char>) -> Option<(char, int)> {
        if s.len() > 0 {
            Some((s[s.len() - 1], 1))
        } else {
            None
        }
    }

    proof fn lemma_decode_back_valid(s: Seq<char>) {
        assert(Self::spec_encode(s[s.len() - 1]) =~= s.subrange(s.len() - 1, s.len() as int));
    }

    fn decode_back(buf: &[char]) -> (r: Option<(char, usize)>) {
        let n = buf.len();
        if n == 0 {
            None
        } else {
            Some((buf[n - 1], 1))
        }
    }
}

} // verus!
