use storyscript::text::{subvec, bytes_eq, find_pat, split_bytes, replace_bytes, trim,
    strip_newline, contains_alpha, parse_usize, dec_of};
use storyscript::subst::substitute;

fn bv(s: &str) -> Vec<u8> {
    s.as_bytes().to_vec()
}

#[test]
fn subvec_copies_range() {
    assert_eq!(subvec(&bv("abcdef"), 2, 4), bv("cd"));
    assert_eq!(subvec(&bv("abc"), 3, 3), bv(""));
}

#[test]
fn bytes_eq_compares_contents() {
    assert!(bytes_eq(&bv("abc"), &bv("abc")));
    assert!(!bytes_eq(&bv("abc"), &bv("abd")));
    assert!(!bytes_eq(&bv("abc"), &bv("ab")));
}

#[test]
fn find_pat_returns_first_occurrence() {
    assert_eq!(find_pat(&bv("a==b==c"), &bv("=="), 0), Some(1));
    assert_eq!(find_pat(&bv("a==b==c"), &bv("=="), 2), Some(4));
    assert_eq!(find_pat(&bv("abc"), &bv("x"), 0), None);
}

#[test]
fn split_on_every_occurrence() {
    assert_eq!(split_bytes(&bv("a:b:c"), &bv(":")), vec![bv("a"), bv("b"), bv("c")]);
    assert_eq!(split_bytes(&bv("ab"), &bv(":")), vec![bv("ab")]);
    assert_eq!(split_bytes(&bv(":"), &bv(":")), vec![bv(""), bv("")]);
}

#[test]
fn replace_every_occurrence() {
    assert_eq!(replace_bytes(&bv("aXbX"), &bv("X"), &bv("YY")), bv("aYYbYY"));
    assert_eq!(replace_bytes(&bv("abc"), &bv("X"), &bv("Y")), bv("abc"));
}

#[test]
fn trim_removes_surrounding_whitespace() {
    assert_eq!(trim(&bv("  x y\t ")), bv("x y"));
    assert_eq!(trim(&bv("   ")), bv(""));
    assert_eq!(trim(&bv("xy")), bv("xy"));
}

#[test]
fn strip_newline_drops_trailing_crlf() {
    assert_eq!(strip_newline(&bv("a\r\n")), bv("a"));
    assert_eq!(strip_newline(&bv("a\n")), bv("a"));
    assert_eq!(strip_newline(&bv("a")), bv("a"));
    assert_eq!(strip_newline(&bv("")), bv(""));
}

#[test]
fn contains_alpha_finds_letters_only() {
    assert!(contains_alpha(&bv("a1")));
    assert!(contains_alpha(&bv("12Z")));
    assert!(!contains_alpha(&bv("123 .!")));
    assert!(!contains_alpha(&bv("")));
}

#[test]
fn parse_usize_accepts_decimal() {
    assert_eq!(parse_usize(&bv("12")), Some(12));
    assert_eq!(parse_usize(&bv("+7")), Some(7));
    assert_eq!(parse_usize(&bv("0")), Some(0));
    assert_eq!(parse_usize(&bv("")), None);
    assert_eq!(parse_usize(&bv("abc")), None);
    assert_eq!(parse_usize(&bv("1.5")), None);
    assert_eq!(parse_usize(&bv("999999999999999999999999999999")), None);
}

#[test]
fn dec_of_writes_decimal_digits() {
    assert_eq!(dec_of(0), bv("0"));
    assert_eq!(dec_of(9), bv("9"));
    assert_eq!(dec_of(12345), bv("12345"));
}

#[test]
fn substitute_replaces_distinct_tokens() {
    let vars = vec![(bv("a"), bv("1")), (bv("bc"), bv("22"))];
    assert_eq!(substitute(&vars, &bv("@a-@bc-@a")), Ok(bv("1-22-1")));
    assert_eq!(substitute(&vars, &bv("no tokens")), Ok(bv("no tokens")));
    assert_eq!(substitute(&vars, &bv("@missing")), Err(bv("missing")));
}
