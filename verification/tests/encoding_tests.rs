use core::cmp::Ordering;
use encstr::str::{Str, U16Str, U32Str};
use encstr::traits::{Char, CharTraits, DecodeRev, IntoChars, ValidationError};
use encstr::utf::UtfCharTraits;

fn err_of<T, E>(r: Result<T, E>) -> E {
    match r {
        Ok(_) => panic!("expected an error"),
        Err(e) => e,
    }
}


#[test]
fn utf8_cafe_validates() {
    assert!(Str::from_chars("caf\u{e9}".as_bytes()).is_ok());
}

#[test]
fn utf8_invalid_continuation_fails_at_zero() {
    let e = err_of(Str::from_chars(&[0xc3, 0x28]));
    assert_eq!(e.first_error_pos(), 0);
    assert_eq!(e.first_error_len(), Some(1));
}

#[test]
fn utf8_error_variants() {
    // overlong two-byte form
    let e = err_of(Str::from_chars(&[0xc0, 0x80]));
    assert_eq!((e.first_error_pos(), e.first_error_len()), (0, Some(1)));
    // encoded surrogate
    let e = err_of(Str::from_chars(&[0xed, 0xa0, 0x80]));
    assert_eq!((e.first_error_pos(), e.first_error_len()), (0, Some(1)));
    // truncated sequence at the very end: no determinable length
    let e = err_of(Str::from_chars(&[0x41, 0xe2, 0x82]));
    assert_eq!((e.first_error_pos(), e.first_error_len()), (1, None));
    // wrong third byte
    let e = err_of(Str::from_chars(&[0xe2, 0x82, 0x41]));
    assert_eq!((e.first_error_pos(), e.first_error_len()), (0, Some(2)));
    // stray continuation byte after a valid scalar
    let e = err_of(Str::from_chars(&[0x41, 0x80]));
    assert_eq!((e.first_error_pos(), e.first_error_len()), (1, Some(1)));
}

#[test]
fn utf16_lone_high_surrogate_incomplete() {
    let e = err_of(U16Str::from_chars(&[0xd800]));
    assert_eq!(e.first_error_pos(), 0);
    assert_eq!(e.first_error_len(), None);
}

#[test]
fn utf16_error_variants() {
    let lone_low = err_of(U16Str::from_chars(&[0xdc00]));
    assert_eq!((lone_low.first_error_pos(), lone_low.first_error_len()), (0, Some(1)));
    let bad_pair = err_of(U16Str::from_chars(&[0x0041, 0xd800, 0x0042]));
    assert_eq!((bad_pair.first_error_pos(), bad_pair.first_error_len()), (1, Some(2)));
    let pair = U16Str::from_chars(&[0xd801, 0xdc37]).unwrap();
    assert_eq!(pair.len(), 2);
}

#[test]
fn utf32_validation_never_fails() {
    let data = ['a', '\u{10ffff}', '\0', '\u{20ac}'];
    assert!(U32Str::from_chars(&data).is_ok());
    assert!(U32Str::from_chars(&[]).is_ok());
}

#[test]
fn utf8_round_trip() {
    for c in ['A', '\u{df}', '\u{20ac}', '\u{10348}'] {
        let v = <UtfCharTraits<u8> as IntoChars>::encode(c);
        assert_eq!(v.len(), <UtfCharTraits<u8> as IntoChars>::encoding_len(c));
        let (d, n) = <UtfCharTraits<u8> as IntoChars>::decode_buf(v.as_slice()).unwrap();
        assert_eq!((d, n), (c, v.len()));
        let (d, n) = <UtfCharTraits<u8> as DecodeRev>::decode_back(v.as_slice()).unwrap();
        assert_eq!((d, n), (c, v.len()));
    }
}

#[test]
fn utf16_round_trip() {
    for c in ['A', '\u{20ac}', '\u{10437}'] {
        let v = <UtfCharTraits<u16> as IntoChars>::encode(c);
        assert_eq!(v.len(), <UtfCharTraits<u16> as IntoChars>::encoding_len(c));
        let (d, n) = <UtfCharTraits<u16> as IntoChars>::decode_buf(v.as_slice()).unwrap();
        assert_eq!((d, n), (c, v.len()));
        let (d, n) = <UtfCharTraits<u16> as DecodeRev>::decode_back(v.as_slice()).unwrap();
        assert_eq!((d, n), (c, v.len()));
    }
}

#[test]
fn utf16_surrogate_pair_decodes() {
    let units = [0x0041u16, 0xd801, 0xdc37];
    let (c, n) = <UtfCharTraits<u16> as DecodeRev>::decode_back(&units).unwrap();
    assert_eq!((c, n), ('\u{10437}', 2));
    let (c, n) = <UtfCharTraits<u16> as IntoChars>::decode_buf(&units).unwrap();
    assert_eq!((c, n), ('A', 1));
}

#[test]
fn utf8_decode_rejects_malformed() {
    assert!(<UtfCharTraits<u8> as IntoChars>::decode_buf(&[0xc0, 0x80]).is_none());
    assert!(<UtfCharTraits<u8> as IntoChars>::decode_buf(&[0x80]).is_none());
    assert!(<UtfCharTraits<u8> as IntoChars>::decode_buf(&[]).is_none());
}

#[test]
fn subrange_check_tests_only_the_edges() {
    // stray continuation byte at the front
    assert!(<UtfCharTraits<u8> as CharTraits>::validate_subrange(&[0xa9]).is_err());
    // cut in the middle of a two-byte scalar
    assert!(<UtfCharTraits<u8> as CharTraits>::validate_subrange(&[0x61, 0xc3]).is_err());
    // whole scalars pass
    assert!(<UtfCharTraits<u8> as CharTraits>::validate_subrange(&[0xc3, 0xa9]).is_ok());
    assert!(<UtfCharTraits<u8> as CharTraits>::validate_subrange(&[]).is_ok());
    // a low surrogate cannot start a cut, a high one cannot end it
    assert!(<UtfCharTraits<u16> as CharTraits>::validate_subrange(&[0xdc00]).is_err());
    assert!(<UtfCharTraits<u16> as CharTraits>::validate_subrange(&[0x41, 0xd800]).is_err());
    assert!(<UtfCharTraits<u16> as CharTraits>::validate_subrange(&[0x41, 0x42]).is_ok());
}

#[test]
fn compare_is_lexicographic_with_length_tie_break() {
    let cmp = <UtfCharTraits<u8> as CharTraits>::compare;
    assert_eq!(cmp(b"abc", b"abd").unwrap(), Ordering::Less);
    assert_eq!(cmp(b"ab", b"abc").unwrap(), Ordering::Less);
    assert_eq!(cmp(b"abc", b"abc").unwrap(), Ordering::Equal);
    assert_eq!(cmp(b"b", b"abc").unwrap(), Ordering::Greater);
    assert_eq!(
        <UtfCharTraits<char> as CharTraits>::compare(&['a', 'b'], &['a']).unwrap(),
        Ordering::Greater
    );
}

#[test]
fn sentinels() {
    assert_eq!(<UtfCharTraits<u8> as CharTraits>::eof(), -1);
    assert_eq!(<UtfCharTraits<u8> as CharTraits>::zero_term(), 0);
    assert_eq!(<UtfCharTraits<u16> as CharTraits>::zero_term(), 0);
    assert!(<UtfCharTraits<char> as CharTraits>::is_zero_term('\0'));
    assert!(!<UtfCharTraits<char> as CharTraits>::is_zero_term('a'));
    assert_eq!(<UtfCharTraits<u8> as IntoChars>::max_encoding_len(), 4);
    assert_eq!(<UtfCharTraits<u16> as IntoChars>::max_encoding_len(), 2);
    assert_eq!(<UtfCharTraits<char> as IntoChars>::max_encoding_len(), 1);
}

#[test]
fn u16_str_search() {
    let units = [0x0061u16, 0xd801, 0xdc37, 0x0062];
    let s = U16Str::from_chars(&units).unwrap();
    assert_eq!(s.find('\u{10437}'), Some(1));
    assert_eq!(s.rfind('b'), Some(3));
    let (before, after) = s.split_once('\u{10437}').unwrap();
    assert_eq!(before.as_chars(), &[0x0061]);
    assert_eq!(after.as_chars(), &[0x0062]);
}

#[test]
fn element_int_conversions() {
    assert_eq!(<u8 as Char>::into_int(0x41), 0x41);
    assert_eq!(<u8 as Char>::from_int(0x41), Some(0x41u8));
    assert_eq!(<u8 as Char>::from_int(-1), None);
    assert_eq!(<u8 as Char>::from_int(256), None);
    assert_eq!(<u8 as Char>::from_int_lossy(0x141), 0x41);
    assert_eq!(<u16 as Char>::from_int(0x10000), None);
    assert_eq!(<char as Char>::into_int('\u{20ac}'), 0x20ac);
    assert_eq!(<char as Char>::from_int(0x20ac), Some('\u{20ac}'));
    assert_eq!(<char as Char>::from_int(0xd800), None);
    assert_eq!(<char as Char>::from_int_lossy(0xd800), '\0');
    assert_eq!(<u32 as Char>::into_int(0xffff_ffff_u32), -1);
    assert_eq!(<u32 as Char>::from_int(-1), Some(0xffff_ffff_u32));
}

#[test]
fn utf32_round_trip() {
    let v = <UtfCharTraits<char> as IntoChars>::encode('x');
    assert_eq!(v, vec!['x']);
    let (c, n) = <UtfCharTraits<char> as IntoChars>::decode_buf(&['x', 'y']).unwrap();
    assert_eq!((c, n), ('x', 1));
    let (c, n) = <UtfCharTraits<char> as DecodeRev>::decode_back(&['x', 'y']).unwrap();
    assert_eq!((c, n), ('y', 1));
}

#[test]
fn utf16_decode_rejects_malformed() {
    assert!(<UtfCharTraits<u16> as IntoChars>::decode_buf(&[0xd800, 0x41]).is_none());
    assert!(<UtfCharTraits<u16> as IntoChars>::decode_buf(&[0xdc00]).is_none());
    assert!(<UtfCharTraits<u16> as DecodeRev>::decode_back(&[0xd800]).is_none());
    assert!(<UtfCharTraits<u16> as DecodeRev>::decode_back(&[0x41, 0xdc00]).is_none());
}

#[test]
fn subrange_check_error_payloads() {
    let e = <UtfCharTraits<u8> as CharTraits>::validate_subrange(&[0xa9]).unwrap_err();
    assert_eq!((e.first_error_pos(), e.first_error_len()), (0, Some(1)));
    let e = <UtfCharTraits<u8> as CharTraits>::validate_subrange(&[0x61, 0xc3]).unwrap_err();
    assert_eq!((e.first_error_pos(), e.first_error_len()), (2, None));
    let e = <UtfCharTraits<u16> as CharTraits>::validate_subrange(&[0x41, 0xd800]).unwrap_err();
    assert_eq!((e.first_error_pos(), e.first_error_len()), (1, None));
    let e = <UtfCharTraits<u16> as CharTraits>::validate_subrange(&[0xdc00, 0x41]).unwrap_err();
    assert_eq!((e.first_error_pos(), e.first_error_len()), (0, Some(1)));
}

#[test]
fn boundary_splits_pass_subrange_check() {
    // "a€b": scalar boundaries at 0, 1, 4 and 5
    let bytes = "a\u{20ac}b".as_bytes();
    for i in [0usize, 1, 4, 5] {
        assert!(<UtfCharTraits<u8> as CharTraits>::validate_subrange(&bytes[..i]).is_ok());
        assert!(<UtfCharTraits<u8> as CharTraits>::validate_subrange(&bytes[i..]).is_ok());
    }
    for i in [2usize, 3] {
        assert!(<UtfCharTraits<u8> as CharTraits>::validate_subrange(&bytes[..i]).is_err());
        assert!(<UtfCharTraits<u8> as CharTraits>::validate_subrange(&bytes[i..]).is_err());
    }
}
