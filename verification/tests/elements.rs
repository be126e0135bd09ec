use subsl::{SubslSplit, SubslSplitter};

#[derive(Debug, Clone, PartialEq)]
struct Token {
    kind: u8,
    text: String,
}

fn tok(kind: u8, text: &str) -> Token {
    Token { kind, text: text.to_string() }
}

#[test]
fn splits_integers() {
    let hay: &[i32] = &[1, 2, 0, 0, 3, 0, 4];
    let ndl: &[i32] = &[0, 0];
    let actual = hay.subsl_split(ndl).collect::<Vec<&[i32]>>();
    assert_eq!(actual, vec![&[1, 2][..], &[3, 0, 4][..]]);
}

#[test]
fn splits_strings() {
    let hay = vec!["a", "and", "b", "and", "and", "c"];
    let ndl = vec!["and"];
    let actual = SubslSplit::new(&hay[..], &ndl[..]).collect::<Vec<&[&str]>>();
    assert_eq!(actual, vec![&["a"][..], &["b"][..], &[][..], &["c"][..]]);
}

#[test]
fn splits_structs_by_their_equality() {
    let hay = vec![tok(1, "x"), tok(0, ";"), tok(1, "y"), tok(0, ","), tok(1, "z")];
    let ndl = vec![tok(0, ";")];
    let actual = SubslSplit::new(&hay[..], &ndl[..]).collect::<Vec<&[Token]>>();
    assert_eq!(actual.len(), 2);
    assert_eq!(actual[0], &[tok(1, "x")][..]);
    assert_eq!(actual[1], &[tok(1, "y"), tok(0, ","), tok(1, "z")][..]);
}

#[test]
fn splits_unit_elements() {
    let hay = vec![(); 5];
    let ndl = vec![(); 2];
    let actual = SubslSplit::new(&hay[..], &ndl[..]).collect::<Vec<&[()]>>();
    assert_eq!(actual, vec![&[][..], &[][..], &[()][..]]);
}
