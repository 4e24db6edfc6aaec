use pro_controller::text::{
    chars_eq_str, chars_starts_with, parse_i32_chars, split_chars, str_chars, trim_chars,
    utf8_len_at_most,
};

fn chars(s: &str) -> Vec<char> {
    s.chars().collect()
}

#[test]
fn parses_decimal_integers_like_std() {
    for s in ["0", "+5", "-5", "007", "2147483647", "-2147483648", "", "+", "-", "--1", "12a",
        "2147483648", "-2147483649", "99999999999999999999", " 1", "1 "]
    {
        assert_eq!(parse_i32_chars(&chars(s)), s.parse::<i32>().ok(), "{:?}", s);
    }
}

#[test]
fn splits_like_std() {
    for s in ["", "a", "a|b", "|", "a||b|", "|x"] {
        let got: Vec<String> =
            split_chars(&chars(s), '|').into_iter().map(|v| v.into_iter().collect()).collect();
        let want: Vec<String> = s.split('|').map(String::from).collect();
        assert_eq!(got, want);
    }
}

#[test]
fn trims_like_std() {
    for s in ["", "  ", " a b ", "\t\nx\r", "\u{3000}y\u{2028}", "\u{a0}\u{85}z"] {
        let got: String = trim_chars(&chars(s)).into_iter().collect();
        assert_eq!(got, s.trim());
    }
}

#[test]
fn trimming_twice_is_trimming_once() {
    let once = trim_chars(&chars("\u{2000} a \u{3000}"));
    assert_eq!(trim_chars(&once), once);
}

#[test]
fn str_chars_and_comparisons() {
    assert_eq!(str_chars("añb"), vec!['a', 'ñ', 'b']);
    assert!(chars_eq_str(&chars("ZR"), "ZR"));
    assert!(!chars_eq_str(&chars("ZR"), "Z"));
    assert_eq!(chars_starts_with(&chars("LSTICK@1,2"), "LSTICK@"), (true, 7));
    assert_eq!(chars_starts_with(&chars("LSTI"), "LSTICK@"), (false, 7));
}

#[test]
fn utf8_length_bound() {
    assert!(utf8_len_at_most(&chars("aé€😀"), 10));
    assert!(!utf8_len_at_most(&chars("aé€😀"), 9));
    assert!(utf8_len_at_most(&chars(""), 0));
}
