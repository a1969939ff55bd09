use r_tools::order::{sort_i32s, sort_strings, sort_u32s, str_le};
use r_tools::text::{
    chars_of, decimal2_text, decimal_text, find, join_path, parse_i32_text, split_lines,
    split_words, string_of, trim_str,
};

fn s(v: &[&str]) -> Vec<String> {
    v.iter().map(|x| x.to_string()).collect()
}

#[test]
fn trim_removes_surrounding_white_space() {
    assert_eq!(trim_str("  a b \n"), "a b");
    assert_eq!(trim_str("\t\n "), "");
    assert_eq!(trim_str("x"), "x");
    assert_eq!(trim_str("\u{a0}y\u{2003}"), "y");
}

#[test]
fn words_split_on_white_space() {
    assert_eq!(split_words(" Volume: 0.40 [MUTED]\n"), s(&["Volume:", "0.40", "[MUTED]"]));
    assert_eq!(split_words("   "), Vec::<String>::new());
    assert_eq!(split_words("a\tb"), s(&["a", "b"]));
}

#[test]
fn parse_i32_matches_std() {
    for t in ["0", "+12", "-7", "2147483647", "-2147483648", "2147483648", "", "-", "+", "1a", " 1", "007"] {
        assert_eq!(parse_i32_text(t), t.parse::<i32>().ok(), "input {t:?}");
    }
}

#[test]
fn join_path_matches_pathbuf() {
    assert_eq!(join_path("/home/u", ".cache/x"), "/home/u/.cache/x");
    assert_eq!(join_path("/home/u/", "a"), "/home/u/a");
    assert_eq!(join_path("", "a"), "a");
    let joined = std::path::PathBuf::from("/tmp/cache").join("cliphist/img");
    assert_eq!(join_path("/tmp/cache", "cliphist/img"), joined.to_str().unwrap());
}

#[test]
fn find_gives_first_occurrence() {
    let hay = chars_of("abcabc");
    assert_eq!(find(&hay, &chars_of("ca")), Some(2));
    assert_eq!(find(&hay, &chars_of("bc")), Some(1));
    assert_eq!(find(&hay, &chars_of("x")), None);
    assert_eq!(find(&hay, &chars_of("")), Some(0));
}

#[test]
fn decimals_print_like_format() {
    assert_eq!(decimal_text(0), "0");
    assert_eq!(decimal_text(1234), "1234");
    assert_eq!(decimal_text(u64::MAX), u64::MAX.to_string());
    assert_eq!(decimal2_text(5), "05");
    assert_eq!(decimal2_text(123), "123");
}

#[test]
fn lines_split_like_str_lines() {
    for t in ["a\r\nb\n", "a\n\nb", "", "\n", "x", "a\rb\n"] {
        let got: Vec<String> = split_lines(&chars_of(t)).iter().map(|l| string_of(l)).collect();
        let want: Vec<String> = t.lines().map(|l| l.to_string()).collect();
        assert_eq!(got, want, "input {t:?}");
    }
}

#[test]
fn sorts_order_and_keep_items() {
    assert_eq!(sort_strings(s(&["b_sink", "a_sink", "c", "a"])), s(&["a", "a_sink", "b_sink", "c"]));
    assert_eq!(sort_u32s(vec![5, 1, 5, 0]), vec![0, 1, 5, 5]);
    assert_eq!(sort_i32s(vec![3, -1, 0, i32::MIN]), vec![i32::MIN, -1, 0, 3]);
    assert!(str_le("ab", "b"));
    assert!(str_le("a", "ab"));
    assert!(!str_le("b", "ab"));
}
