use subsl::{SubslSplit, SubslSplitter};

#[test]
fn exhausted_splitter_stays_exhausted() {
    let mut it = SubslSplit::new(&b"a-b"[..], &b"-"[..]);
    assert_eq!(it.next(), Some(&b"a"[..]));
    assert_eq!(it.next(), Some(&b"b"[..]));
    for _ in 0..10 {
        assert_eq!(it.next(), None);
    }
}

#[test]
fn exhausted_after_consumed_trailing_needle() {
    let mut it = SubslSplit::new(&b"hi"[..], &b"hi"[..]);
    assert_eq!(it.next(), Some(&b""[..]));
    for _ in 0..10 {
        assert_eq!(it.next(), None);
    }
}

#[test]
fn exhausted_after_empty_needle() {
    let mut it = SubslSplit::new(&b"hi"[..], &b""[..]);
    assert_eq!(it.next(), Some(&b"hi"[..]));
    for _ in 0..10 {
        assert_eq!(it.next(), None);
    }
}

#[test]
fn empty_segment_is_not_the_end() {
    let mut it = SubslSplit::new(&b"--a"[..], &b"-"[..]);
    assert_eq!(it.next(), Some(&b""[..]));
    assert_eq!(it.next(), Some(&b""[..]));
    assert_eq!(it.next(), Some(&b"a"[..]));
    assert_eq!(it.next(), None);
}

#[test]
fn method_and_constructor_agree() {
    let hay: &[u8] = b"k=v;k2=v2;;";
    let by_method = hay.subsl_split(b";").collect::<Vec<&[u8]>>();
    let by_new = SubslSplit::new(hay, &b";"[..]).collect::<Vec<&[u8]>>();
    assert_eq!(by_method, by_new);
    assert_eq!(by_new, vec![&b"k=v"[..], &b"k2=v2"[..], &b""[..]]);
}

#[test]
fn splitters_over_one_haystack_are_independent() {
    let hay: &[u8] = b"a.b.c";
    let mut first = SubslSplit::new(hay, &b"."[..]);
    let mut second = SubslSplit::new(hay, &b"."[..]);
    assert_eq!(first.next(), Some(&b"a"[..]));
    assert_eq!(first.next(), Some(&b"b"[..]));
    assert_eq!(second.next(), Some(&b"a"[..]));
    assert_eq!(first.next(), Some(&b"c"[..]));
    assert_eq!(second.next(), Some(&b"b"[..]));
    assert_eq!(first.next(), None);
    assert_eq!(second.next(), Some(&b"c"[..]));
    assert_eq!(second.next(), None);
}

#[test]
fn segments_outlive_the_splitter() {
    let hay: Vec<u8> = b"left|right".to_vec();
    let sep: Vec<u8> = b"|".to_vec();
    let segs: Vec<&[u8]> = {
        let it = SubslSplit::new(&hay[..], &sep[..]);
        it.collect()
    };
    assert_eq!(segs, vec![&b"left"[..], &b"right"[..]]);
}

#[test]
fn works_in_a_for_loop() {
    let mut lens: Vec<usize> = Vec::new();
    for seg in SubslSplit::new(&b"ab--c----"[..], &b"--"[..]) {
        lens.push(seg.len());
    }
    assert_eq!(lens, vec![2, 1, 0]);
}
