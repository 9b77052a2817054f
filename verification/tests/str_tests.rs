use encstr::str::Str;
use encstr::traits::ValidationError;

fn err_of<T, E>(r: Result<T, E>) -> E {
    match r {
        Ok(_) => panic!("expected an error"),
        Err(e) => e,
    }
}


#[test]
fn test_from_chars_const() {
    let valid = Str::from_chars(&[0x00, 0x01, 0x02]).unwrap();
    assert_eq!(valid.as_chars(), &[0x00, 0x01, 0x02]);
}

#[test]
fn test_from_chars_err() {
    let invalid = err_of(Str::from_chars(&[0x00, 0xff, 0x02]));
    assert_eq!(invalid.first_error_pos(), 1);
}

#[test]
fn get_accepts_boundary_cuts_only() {
    // "café": the accented letter occupies bytes 3 and 4.
    let s = Str::from_chars("caf\u{e9}".as_bytes()).unwrap();
    assert_eq!(s.len(), 5);
    assert_eq!(s.get(0, 3).unwrap().as_chars(), b"caf");
    assert_eq!(s.get(3, 5).unwrap().as_chars(), &[0xc3, 0xa9]);
    assert!(s.get(0, 4).is_none());
    assert!(s.get(4, 5).is_none());
    assert!(s.get(2, 1).is_none());
    assert!(s.get(0, 6).is_none());
}

#[test]
fn split_at_scalar_boundary() {
    let s = Str::from_chars(b"hello").unwrap();
    let (left, right) = s.split_at(2);
    assert_eq!(left.as_chars(), b"he");
    assert_eq!(right.as_chars(), b"llo");
}

#[test]
fn split_once_comma() {
    let s = Str::from_chars(b"a,b,c").unwrap();
    let (before, after) = s.split_once(',').unwrap();
    assert_eq!(before.as_chars(), b"a");
    assert_eq!(after.as_chars(), b"b,c");
}

#[test]
fn rsplit_once_comma() {
    let s = Str::from_chars(b"a,b,c").unwrap();
    let (before, after) = s.rsplit_once(',').unwrap();
    assert_eq!(before.as_chars(), b"a,b");
    assert_eq!(after.as_chars(), b"c");
}

#[test]
fn find_and_rfind_scalars() {
    let s = Str::from_chars("caf\u{e9}a".as_bytes()).unwrap();
    assert_eq!(s.find('a'), Some(1));
    assert_eq!(s.rfind('a'), Some(5));
    assert_eq!(s.find('\u{e9}'), Some(3));
    assert_eq!(s.find('z'), None);
}

#[test]
fn find_substring_at_last_offset() {
    // a needle placed at the last possible offset must be found
    let hay = Str::from_chars(b"abcdef").unwrap();
    let needle = Str::from_chars(b"ef").unwrap();
    assert_eq!(hay.find(needle), Some(4));
    let whole = Str::from_chars(b"abcdef").unwrap();
    assert_eq!(hay.find(whole), Some(0));
}

#[test]
fn find_substring_edge_cases() {
    let empty = Str::from_chars(b"").unwrap();
    let empty_needle = Str::from_chars(b"").unwrap();
    assert_eq!(empty.find(empty_needle), Some(0));
    let hay = Str::from_chars(b"ab").unwrap();
    let long_needle = Str::from_chars(b"abc").unwrap();
    assert_eq!(hay.find(long_needle), None);
    assert_eq!(empty.find('x'), None);
}

#[test]
fn rfind_substring() {
    let hay = Str::from_chars(b"ababab").unwrap();
    let needle = Str::from_chars(b"ab").unwrap();
    assert_eq!(hay.rfind(needle), Some(4));
    assert_eq!(hay.find(needle), Some(0));
}

#[test]
fn split_yields_pieces_in_order() {
    let s = Str::from_chars(b"a,b,c").unwrap();
    let mut it = s.split(',');
    assert_eq!(it.next().unwrap().as_chars(), b"a");
    assert_eq!(it.next().unwrap().as_chars(), b"b");
    assert_eq!(it.next().unwrap().as_chars(), b"c");
    assert!(it.next().is_none());
}

#[test]
fn rsplit_yields_pieces_backward() {
    let s = Str::from_chars(b"a,b,c").unwrap();
    let mut it = s.rsplit(',');
    assert_eq!(it.next().unwrap().as_chars(), b"c");
    assert_eq!(it.next().unwrap().as_chars(), b"b");
    assert_eq!(it.next().unwrap().as_chars(), b"a");
    assert!(it.next().is_none());
}

#[test]
fn split_without_match_yields_whole_once() {
    let s = Str::from_chars(b"abc").unwrap();
    let mut it = s.split(',');
    assert_eq!(it.next().unwrap().as_chars(), b"abc");
    assert!(it.next().is_none());
    assert!(it.next().is_none());
}

#[test]
fn chars_iterates_raw_units() {
    let s = Str::from_chars(b"ab").unwrap();
    let mut it = s.chars();
    assert_eq!(it.next(), Some(b'a'));
    assert_eq!(it.next(), Some(b'b'));
    assert_eq!(it.next(), None);
}

#[test]
fn unicode_iter_decodes_scalars() {
    let s = Str::from_chars("a\u{20ac}b".as_bytes()).unwrap();
    let mut it = s.unicode_iter();
    assert_eq!(it.next(), Some('a'));
    assert_eq!(it.next(), Some('\u{20ac}'));
    assert_eq!(it.next(), Some('b'));
    assert_eq!(it.next(), None);
}

#[test]
fn reassembly_of_split_once() {
    let s = Str::from_chars("x\u{e9},y".as_bytes()).unwrap();
    let (before, after) = s.split_once(',').unwrap();
    let mut rebuilt = before.as_chars().to_vec();
    rebuilt.extend_from_slice(b",");
    rebuilt.extend_from_slice(after.as_chars());
    assert_eq!(rebuilt.as_slice(), s.as_chars());
}

#[test]
fn from_str_wraps_host_string() {
    let s = Str::from_str("caf\u{e9}");
    assert_eq!(s.as_chars(), "caf\u{e9}".as_bytes());
}

#[test]
fn scalar_set_pattern() {
    let s = Str::from_chars(b"a-b_c").unwrap();
    let set: &[char] = &['-', '_'];
    assert_eq!(s.find(set), Some(1));
    assert_eq!(s.rfind(set), Some(3));
    let (before, after) = s.split_once(set).unwrap();
    assert_eq!(before.as_chars(), b"a");
    assert_eq!(after.as_chars(), b"b_c");
    let miss: &[char] = &['!', '?'];
    assert_eq!(s.find(miss), None);
}

#[test]
fn split_peels_from_both_ends() {
    let s = Str::from_chars(b"a,b,c,d").unwrap();
    let mut it = s.split(',');
    assert_eq!(it.next().unwrap().as_chars(), b"a");
    assert_eq!(it.next_back().unwrap().as_chars(), b"d");
    assert_eq!(it.next().unwrap().as_chars(), b"b");
    assert_eq!(it.next_back().unwrap().as_chars(), b"c");
    assert!(it.next().is_none());
}

#[test]
fn get_unchecked_slices_proven_ranges() {
    let s = Str::from_chars("caf\u{e9}".as_bytes()).unwrap();
    let prefix = s.get_unchecked(0, 3);
    assert_eq!(prefix.as_chars(), b"caf");
}

#[test]
fn split_once_substring_needle() {
    let s = Str::from_chars(b"key: value").unwrap();
    let sep = Str::from_chars(b": ").unwrap();
    let (k, v) = s.split_once(sep).unwrap();
    assert_eq!(k.as_chars(), b"key");
    assert_eq!(v.as_chars(), b"value");
}
