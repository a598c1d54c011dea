use comick::text::{kept_range, push_decimal, push_decimal_nat, push_escaped, split_on, trimmed};

fn chars(text: &str) -> Vec<char> {
    text.chars().collect()
}

#[test]
fn decimal_is_appended_to_what_is_there() {
    let mut out = String::from("page=");
    push_decimal(&mut out, 42);
    assert_eq!(out, "page=42");
    push_decimal(&mut out, -7);
    assert_eq!(out, "page=42-7");
    push_decimal(&mut out, 0);
    assert_eq!(out, "page=42-70");
}

#[test]
fn decimal_of_large_naturals() {
    let mut out = String::new();
    push_decimal_nat(&mut out, u64::MAX);
    assert_eq!(out, "18446744073709551615");
    let mut out = String::new();
    push_decimal_nat(&mut out, 1000);
    assert_eq!(out, "1000");
}

#[test]
fn escaping_replaces_each_space() {
    let mut out = String::from("q=");
    push_escaped(&mut out, "one piece");
    assert_eq!(out, "q=one%20piece");
    let mut out = String::new();
    push_escaped(&mut out, "  ");
    assert_eq!(out, "%20%20");
    let mut out = String::from("x");
    push_escaped(&mut out, "");
    assert_eq!(out, "x");
}

#[test]
fn splitting_yields_one_piece_more_than_separators() {
    assert_eq!(split_on("", ','), vec![chars("")]);
    assert_eq!(split_on("a", ','), vec![chars("a")]);
    assert_eq!(split_on("a,b", ','), vec![chars("a"), chars("b")]);
    assert_eq!(split_on(",a,,b,", ','), vec![chars(""), chars("a"), chars(""), chars("b"), chars("")]);
    assert_eq!(split_on("a, b", ','), vec![chars("a"), chars(" b")]);
}

#[test]
fn trimming_removes_surrounding_whitespace_only() {
    assert_eq!(trimmed(&chars("  a b \t\n")), "a b");
    assert_eq!(trimmed(&chars("a")), "a");
    assert_eq!(trimmed(&chars("")), "");
    assert_eq!(trimmed(&chars(" \t ")), "");
    assert_eq!(trimmed(&chars("\u{2003}x y\u{85}")), "x y");
}

#[test]
fn kept_range_skips_blank_ends() {
    assert_eq!(kept_range(&vec![true, true, false, true, false, true]), (2, 5));
    assert_eq!(kept_range(&vec![false]), (0, 1));
    assert_eq!(kept_range(&vec![false, true]), (0, 1));
    assert_eq!(kept_range(&vec![true, false]), (1, 2));
    assert_eq!(kept_range(&vec![]), (0, 0));
    assert_eq!(kept_range(&vec![true, true, true]), (3, 3));
}
