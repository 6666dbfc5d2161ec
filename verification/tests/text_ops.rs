use gremlin::text::{
    chars_of, is_whitespace, join_chars, split_chars, string_of, strip_prefix_all_chars,
    strip_suffix_all_chars, take_until_chars, trim_chars, words_chars,
};

fn cs(s: &str) -> Vec<char> {
    s.chars().collect()
}

#[test]
fn whitespace_agrees_with_std_for_every_char() {
    for u in 0u32..=0x10ffff {
        if let Some(c) = char::from_u32(u) {
            assert_eq!(is_whitespace(c), c.is_whitespace(), "U+{:04X}", u);
        }
    }
}

#[test]
fn trim_agrees_with_std() {
    for s in ["", "  ", " a b ", "\u{2028}x\u{3000}", "\tline\r\n", "x"] {
        assert_eq!(string_of(&trim_chars(&cs(s))), s.trim());
    }
}

#[test]
fn words_agree_with_split_whitespace() {
    for s in ["", "   ", "a", " a  b\tc ", "x\u{a0}y"] {
        let got: Vec<String> = words_chars(&cs(s)).iter().map(|w| string_of(w)).collect();
        let want: Vec<String> = s.split_whitespace().map(|w| w.to_string()).collect();
        assert_eq!(got, want);
    }
}

#[test]
fn split_agrees_with_std() {
    for s in ["", "a", "a\nb", "\n\n", "x\ny\n"] {
        let got: Vec<String> = split_chars(&cs(s), '\n').iter().map(|w| string_of(w)).collect();
        let want: Vec<String> = s.split('\n').map(|w| w.to_string()).collect();
        assert_eq!(got, want);
    }
}

#[test]
fn join_from_second_word() {
    let ws = vec![cs("a"), cs("b"), cs("c")];
    assert_eq!(string_of(&join_chars(&ws, 1, &cs(" "))), "b c");
    assert_eq!(string_of(&join_chars(&ws, 3, &cs(" "))), "");
}

#[test]
fn prefix_and_suffix_stripping_agree_with_std() {
    for s in ["abab", "ab", "xab", "abx", ""] {
        assert_eq!(string_of(&strip_prefix_all_chars(&cs(s), &cs("ab"))), s.trim_start_matches("ab"));
        assert_eq!(string_of(&strip_suffix_all_chars(&cs(s), &cs("ab"))), s.trim_end_matches("ab"));
    }
}

#[test]
fn take_until_agrees_with_splitn() {
    for s in ["host/path/x", "host", "/x", ""] {
        assert_eq!(string_of(&take_until_chars(&cs(s), '/')), s.splitn(2, '/').next().unwrap());
    }
}

#[test]
fn chars_of_round_trips() {
    let s = "héllo \u{1F600}";
    assert_eq!(chars_of(s), cs(s));
    assert_eq!(string_of(&chars_of(s)), s);
}
