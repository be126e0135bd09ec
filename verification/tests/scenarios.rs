use subsl::{SubslSplit, SubslSplitter};

fn split<'a>(hay: &'a [u8], ndl: &'a [u8]) -> Vec<&'a [u8]> {
    SubslSplit::new(hay, ndl).collect()
}

#[test]
fn needle_that_is_absent_yields_the_haystack() {
    let input: &[u8] = b"hello";
    let actual = input.subsl_split(b"test").collect::<Vec<&[u8]>>();
    assert_eq!(actual, vec![&b"hello"[..]]);
}

#[test]
fn needle_in_the_middle_yields_both_sides() {
    let input: &[u8] = b"hello";
    let actual = input.subsl_split(b"ll").collect::<Vec<&[u8]>>();
    assert_eq!(actual, vec![&b"he"[..], &b"o"[..]]);
}

#[test]
fn adjacent_needles_yield_empty_segments() {
    let input: &[u8] = b"lll";
    let actual = input.subsl_split(b"l").collect::<Vec<&[u8]>>();
    assert_eq!(actual, vec![&b""[..], &b""[..], &b""[..]]);
}

#[test]
fn empty_needle_yields_the_haystack() {
    let input: &[u8] = b"hi";
    let actual = input.subsl_split(b"").collect::<Vec<&[u8]>>();
    assert_eq!(actual, vec![&b"hi"[..]]);
}

#[test]
fn needle_equal_to_haystack_yields_one_empty_segment() {
    let input: &[u8] = b"hi";
    let actual = input.subsl_split(b"hi").collect::<Vec<&[u8]>>();
    assert_eq!(actual, vec![&b""[..]]);
    assert_eq!(actual.len(), 1);
}

#[test]
fn empty_haystack_yields_nothing() {
    let input: &[u8] = b"";
    let actual = input.subsl_split(b"hi").collect::<Vec<&[u8]>>();
    let expected: Vec<&[u8]> = vec![];
    assert_eq!(actual, expected);
}

#[test]
fn empty_haystack_and_empty_needle_yield_nothing() {
    let expected: Vec<&[u8]> = vec![];
    assert_eq!(split(b"", b""), expected);
    let mut it = SubslSplit::new(&b""[..], &b""[..]);
    assert_eq!(it.next(), None);
    assert_eq!(it.next(), None);
}

#[test]
fn header_and_body_are_split_on_blank_line() {
    let http_get: &[u8] = b"GET / HTTP/1.0\r\n\r\nsome data in the body";
    let sep = b"\r\n\r\n";
    let mut iter = http_get.subsl_split(sep);
    let headers = iter.next().unwrap();
    let body = iter.next().unwrap();
    assert_eq!(headers, b"GET / HTTP/1.0");
    assert_eq!(body, b"some data in the body");
    assert_eq!(iter.next(), None);
}

#[test]
fn leading_needle_yields_empty_first_segment() {
    assert_eq!(split(b",a", b","), vec![&b""[..], &b"a"[..]]);
}

#[test]
fn trailing_needle_yields_no_empty_last_segment() {
    assert_eq!(split(b"a,b,", b","), vec![&b"a"[..], &b"b"[..]]);
    assert_eq!(split(b"a,", b","), vec![&b"a"[..]]);
}

#[test]
fn needle_longer_than_haystack_yields_the_haystack() {
    assert_eq!(split(b"hi", b"hello"), vec![&b"hi"[..]]);
    assert_eq!(split(b"h", b"hh"), vec![&b"h"[..]]);
}

#[test]
fn needle_cut_off_by_the_end_is_no_match() {
    assert_eq!(split(b"xab", b"abc"), vec![&b"xab"[..]]);
    assert_eq!(split(b"a--b-", b"--"), vec![&b"a"[..], &b"b-"[..]]);
}

#[test]
fn matches_do_not_overlap() {
    assert_eq!(split(b"aaa", b"aa"), vec![&b""[..], &b"a"[..]]);
    assert_eq!(split(b"aaaa", b"aa"), vec![&b""[..], &b""[..]]);
    assert_eq!(split(b"aaaaa", b"aa"), vec![&b""[..], &b""[..], &b"a"[..]]);
    assert_eq!(split(b"xabababy", b"abab"), vec![&b"x"[..], &b"aby"[..]]);
}

#[test]
fn leftmost_match_is_taken() {
    assert_eq!(split(b"aab", b"ab"), vec![&b"a"[..]]);
    assert_eq!(split(b"aabc", b"ab"), vec![&b"a"[..], &b"c"[..]]);
    assert_eq!(split(b"abcabc", b"bc"), vec![&b"a"[..], &b"a"[..]]);
}

#[test]
fn single_element_haystack() {
    assert_eq!(split(b"a", b"a"), vec![&b""[..]]);
    assert_eq!(split(b"a", b"b"), vec![&b"a"[..]]);
    assert_eq!(split(b"a", b""), vec![&b"a"[..]]);
}

#[test]
fn several_segments_come_in_order() {
    assert_eq!(
        split(b"one::two::::three", b"::"),
        vec![&b"one"[..], &b"two"[..], &b""[..], &b"three"[..]]
    );
}
