use vd_display::decimal::{i32_to_decimal, parse_i32, parse_u32, parse_usize, u32_to_decimal};
use vd_display::tokens::{
    char_is_ws, str_find, str_find_char, str_find_ws, str_lines, str_rfind_char, str_split_char,
    str_split_whitespace, str_trim, str_trim_start_marks, to_chars,
};

#[test]
fn trim_matches_std() {
    for s in ["", "  a b  ", "\t\nx\r\n", "\u{3000}y\u{a0}", "   ", "no"] {
        assert_eq!(str_trim(s), s.trim());
    }
}

#[test]
fn whitespace_class_matches_std() {
    for c in ['\t', '\n', '\u{b}', '\u{c}', '\r', ' ', '\u{85}', '\u{a0}', '\u{1680}', '\u{2000}', '\u{200a}', '\u{2028}', '\u{2029}', '\u{202f}', '\u{205f}', '\u{3000}', 'a', '\u{200b}', '_', '\u{feff}'] {
        assert_eq!(char_is_ws(c), c.is_whitespace(), "{:?}", c);
    }
}

#[test]
fn split_char_matches_std() {
    for s in ["", "a", "a,b", ",a,,b,", ","] {
        let mine: Vec<String> = str_split_char(s, ',');
        let std: Vec<String> = s.split(',').map(|x| x.to_string()).collect();
        assert_eq!(mine, std);
    }
}

#[test]
fn lines_match_std() {
    for s in ["", "a", "a\n", "a\n\n", "\n", "a\r\nb", "a\rb\r", "x\r\n\r\n", "one\ntwo\nthree"] {
        let mine = str_lines(s);
        let std: Vec<String> = s.lines().map(|x| x.to_string()).collect();
        assert_eq!(mine, std, "{:?}", s);
    }
}

#[test]
fn words_match_std() {
    for s in ["", "   ", "a", " a  b\tc\n", "DVI-I-1 connected 2400x1080+2560+0 (normal) 625mm x 289mm"] {
        let mine = str_split_whitespace(s);
        let std: Vec<String> = s.split_whitespace().map(|x| x.to_string()).collect();
        assert_eq!(mine, std);
    }
}

#[test]
fn finds_match_std() {
    let s = "ab mm x cd mm";
    assert_eq!(str_find(s, "mm x "), s.find("mm x "));
    assert_eq!(str_find(s, "zz"), None);
    assert_eq!(str_find(s, ""), Some(0));
    assert_eq!(str_find_char(s, 'x'), Some(6));
    assert_eq!(str_find_char(s, 'q'), None);
    assert_eq!(str_rfind_char(s, ' '), Some(10));
    assert_eq!(str_rfind_char("", ' '), None);
    assert_eq!(str_find_ws("abc def"), Some(3));
    assert_eq!(str_find_ws("abc"), None);
    assert_eq!(str_trim_start_marks("+*EVDI-1 x"), "EVDI-1 x");
    assert_eq!(to_chars("héllo"), vec!['h', 'é', 'l', 'l', 'o']);
}

#[test]
fn number_parsing_matches_std() {
    for s in ["", "0", "42", "+7", "-1", "4294967295", "4294967296", "12a", "+", "-", " 1", "007"] {
        assert_eq!(parse_u32(s), s.parse::<u32>().ok(), "{:?}", s);
        assert_eq!(parse_usize(s), s.parse::<usize>().ok(), "{:?}", s);
        assert_eq!(parse_i32(s), s.parse::<i32>().ok(), "{:?}", s);
    }
    for s in ["-2147483648", "-2147483649", "2147483647", "2147483648", "+2147483647", "-0"] {
        assert_eq!(parse_i32(s), s.parse::<i32>().ok(), "{:?}", s);
    }
}

#[test]
fn decimal_writing_matches_std() {
    for n in [0u32, 7, 10, 99, 1000, 4294967295] {
        assert_eq!(u32_to_decimal(n), n.to_string());
    }
    for n in [0i32, -1, 15, -2147483648, 2147483647] {
        assert_eq!(i32_to_decimal(n), n.to_string());
    }
}

#[test]
fn written_numbers_parse_back() {
    for n in [0u32, 1, 9, 10, 12345, 4294967295] {
        assert_eq!(parse_u32(&u32_to_decimal(n)), Some(n));
    }
    for n in [0i32, -1, 7, -2147483648, 2147483647] {
        assert_eq!(parse_i32(&i32_to_decimal(n)), Some(n));
    }
}
