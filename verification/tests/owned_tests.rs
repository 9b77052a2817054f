use encstr::array_str::ArrayString;
use encstr::cstr::{CStr, RawCharTraits, Utf16CStr, Utf8CStr};
use encstr::cstring::BasicCString;
use encstr::str::{Str, U16Str};
use encstr::traits::ValidationError;
use encstr::string::{U16String, Utf8String};
use encstr::utf::UtfCharTraits;

fn ok_of<T, E>(r: Result<T, E>) -> T {
    match r {
        Ok(v) => v,
        Err(_) => panic!("expected success"),
    }
}

fn err_of<T, E>(r: Result<T, E>) -> E {
    match r {
        Ok(_) => panic!("expected an error"),
        Err(e) => e,
    }
}


#[test]
fn push_euro_sign_yields_utf8_bytes() {
    let mut s = Utf8String::new();
    s.push('\u{20ac}');
    assert_eq!(s.as_chars(), &[0xe2, 0x82, 0xac]);
}

#[test]
fn u16string_push_supplementary_scalar() {
    let mut s = U16String::new();
    s.push('\u{10437}');
    assert_eq!(s.as_chars(), &[0xd801, 0xdc37]);
}

#[test]
fn push_str_concatenates_validated_buffers() {
    let mut s = ok_of(Utf8String::from_chars("caf".as_bytes().to_vec()));
    let tail = Str::from_chars(&[0xc3, 0xa9]).unwrap();
    s.push_str(&tail);
    assert_eq!(s.as_chars(), "caf\u{e9}".as_bytes());
    assert_eq!(s.len(), 5);
}

#[test]
fn string_from_chars_returns_rejected_buffer() {
    let v = vec![0x66u8, 0xff];
    match Utf8String::from_chars(v) {
        Ok(_) => panic!("malformed buffer accepted"),
        Err(e) => {
            assert_eq!(e.as_bytes(), &[0x66, 0xff]);
            assert_eq!(e.chars_error().first_error_pos(), 1);
            assert_eq!(e.into_bytes(), vec![0x66, 0xff]);
        }
    }
}

#[test]
fn string_round_trips_through_vec() {
    let s = ok_of(Utf8String::from_chars(b"hello".to_vec()));
    assert_eq!(s.as_basic_str().as_chars(), b"hello");
    assert_eq!(s.into_chars(), b"hello".to_vec());
    let empty = Utf8String::with_capacity(16);
    assert_eq!(empty.len(), 0);
}

#[test]
fn cstr_from_chars_with_null_accepts_exactly_one_trailing_zero() {
    assert!(Utf8CStr::from_chars_with_null(b"hi\0").is_some());
    assert!(Utf8CStr::from_chars_with_null(b"hi").is_none());
    assert!(Utf8CStr::from_chars_with_null(b"h\0i\0").is_none());
    assert!(Utf8CStr::from_chars_with_null(b"").is_none());
    assert!(Utf8CStr::from_chars_with_null(&[0xff, 0x00]).is_none());
    assert!(Utf8CStr::from_chars_with_null(b"\0").is_some());
}

#[test]
fn raw_cstr_skips_text_validation() {
    // opaque bytes: anything but interior zeros is accepted
    assert!(CStr::from_chars_with_null(&[0xff, 0xfe, 0x00]).is_some());
    assert!(CStr::from_chars_with_null(&[0xff, 0x00, 0x00]).is_none());
}

#[test]
fn cstr_split_from_chars() {
    let (c, rest) = CStr::split_from_chars(b"ab\0cd").unwrap();
    assert_eq!(c.as_chars(), b"ab\0");
    assert_eq!(rest, b"cd");
    assert!(CStr::split_from_chars(b"abcd").is_none());
    assert!(Utf8CStr::split_from_chars(&[0xff, 0x00, 0x41]).is_none());
}

#[test]
fn cstr_str_views() {
    let c = Utf8CStr::from_chars_with_null(b"hi\0").unwrap();
    assert_eq!(c.len(), 3);
    assert_eq!(c.as_basic_str_with_nul().as_chars(), b"hi\0");
    assert_eq!(c.as_basic_str_without_nul().as_chars(), b"hi");
}

#[test]
fn cstring_new_holds_single_terminator() {
    let s = BasicCString::<RawCharTraits>::new();
    assert_eq!(s.as_chars(), &[0u8]);
    let t = BasicCString::<UtfCharTraits<u16>>::with_capacity(10);
    assert_eq!(t.as_chars(), &[0u16]);
    assert_eq!(s.as_basic_c_str().len(), 1);
    assert_eq!(s.into_chars(), vec![0u8]);
}

#[test]
fn array_string_rejects_wrong_length() {
    let s = Str::from_chars(b"abcd").unwrap();
    let e = err_of(ArrayString::<3>::try_from_str(&s));
    assert_eq!(e.offered_len(), 4);
    assert_eq!(e.required_len(), 3);
}

#[test]
fn array_string_accepts_exact_length() {
    let s = Str::from_chars(b"xyz").unwrap();
    let a = ArrayString::<3>::try_from_str(&s).unwrap();
    assert_eq!(a.as_basic_str().as_chars(), b"xyz");
    assert_eq!(a.as_chars(), b"xyz");
}

#[test]
fn array_string_from_chars_validates() {
    let a = ArrayString::<3>::from_chars([b'a', b'b', b'c']).unwrap();
    assert_eq!(a.into_chars(), [b'a', b'b', b'c']);
    assert!(ArrayString::<2>::from_chars([0xc3, 0x28]).is_err());
}

#[test]
fn u16string_push_str_keeps_pairs() {
    let mut s = U16String::new();
    let units = [0xd801u16, 0xdc37];
    let t = ok_of(U16Str::from_chars(&units));
    s.push_str(&t);
    s.push('A');
    assert_eq!(s.as_chars(), &[0xd801, 0xdc37, 0x0041]);
}

#[test]
fn utf16_cstr_rejects_malformed_prefix() {
    assert!(Utf16CStr::from_chars_with_null(&[0x68, 0x69, 0x00]).is_some());
    assert!(Utf16CStr::from_chars_with_null(&[0xd800, 0x00]).is_none());
}
