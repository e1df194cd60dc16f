use ghtest::text::{blank, chars_of, is_whitespace, split_on_commas, string_of, trimmed};

fn chars(s: &str) -> Vec<char> {
    s.chars().collect()
}

#[test]
fn whitespace_agrees_with_std_on_every_char() {
    let mut u: u32 = 0;
    while u <= 0x10ffff {
        if let Some(c) = char::from_u32(u) {
            assert_eq!(is_whitespace(c), c.is_whitespace(), "U+{:04X}", u);
        }
        u += 1;
    }
}

#[test]
fn chars_of_gives_each_character() {
    assert_eq!(chars_of(""), Vec::<char>::new());
    assert_eq!(chars_of("a,b"), vec!['a', ',', 'b']);
    assert_eq!(chars_of("\u{3000}é1"), vec!['\u{3000}', 'é', '1']);
}

#[test]
fn string_of_round_trips() {
    assert_eq!(string_of(&chars("")), "");
    assert_eq!(string_of(&chars("10, x")), "10, x");
    assert_eq!(string_of(&chars_of("é\u{2028}z")), "é\u{2028}z");
}

#[test]
fn blank_means_only_whitespace() {
    assert!(blank(&chars("")));
    assert!(blank(&chars(" \t\r\n")));
    assert!(blank(&chars("\u{a0}\u{3000}")));
    assert!(!blank(&chars(" 0 ")));
    assert!(!blank(&chars(",")));
}

#[test]
fn trimmed_agrees_with_std() {
    for s in [
        "", " ", "a", " a", "a ", "  a b  ", "\t10\n", "\u{3000}12\u{a0}", " , ", "x  y", "   ",
        "\u{85}\u{1680}7\u{2000}\u{200a}\u{2029}\u{202f}\u{205f}",
    ] {
        assert_eq!(trimmed(&chars(s)), chars(s.trim()), "{:?}", s);
    }
}

#[test]
fn trimmed_keeps_inner_whitespace() {
    assert_eq!(trimmed(&chars("  1 0  ")), chars("1 0"));
}

#[test]
fn split_agrees_with_std() {
    for s in ["", ",", "a", "a,b", "a,,b", ",a", "a,", ",,", "10, 12,14", " , "] {
        let want: Vec<Vec<char>> = s.split(",").map(chars).collect();
        assert_eq!(split_on_commas(&chars(s)), want, "{:?}", s);
    }
}

#[test]
fn split_of_empty_is_one_empty_piece() {
    assert_eq!(split_on_commas(&chars("")), vec![Vec::<char>::new()]);
}

#[test]
fn split_counts_one_more_than_commas() {
    assert_eq!(split_on_commas(&chars("1,2,3")).len(), 3);
    assert_eq!(split_on_commas(&chars(",,,")).len(), 4);
}

#[test]
fn blank_exactly_when_trim_is_empty() {
    for s in ["", " ", "\t\n", " a ", "a", "\u{a0}"] {
        assert_eq!(blank(&chars(s)), trimmed(&chars(s)).is_empty(), "{:?}", s);
    }
}
