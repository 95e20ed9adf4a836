use marp_video::decimal::{
    digit_of, only_digits, only_zeros, push_fixed, push_nat, push_padded, read_count,
    read_exponent, read_fixed, scaled_value, unit_of, value_of,
};
use marp_video::path::{is_rooted, joined, parent_of};
use marp_video::text::{
    begins_with, chars_of, find_from, finishes_with, has_at, holds_text, is_text, is_whitespace,
    push_all, push_str, same_chars, slice_of, split_at_first, split_chars, string_of, trimmed,
};

fn text(s: &str) -> Vec<char> {
    s.chars().collect()
}

fn shown(v: &Vec<char>) -> String {
    v.iter().collect()
}

fn fixed(n: u64, width: u32) -> String {
    let mut out = Vec::new();
    push_fixed(&mut out, n, width);
    shown(&out)
}

#[test]
fn chars_of_keeps_the_text() {
    assert_eq!(chars_of("a\u{e9}b"), vec!['a', '\u{e9}', 'b']);
    assert_eq!(chars_of(""), Vec::<char>::new());
}

#[test]
fn string_of_keeps_the_text() {
    assert_eq!(string_of(&text("speak: h\u{e9}")), "speak: h\u{e9}");
    assert_eq!(string_of(&Vec::new()), "");
}

#[test]
fn push_all_and_push_str_append() {
    let mut out = text("ab");
    push_all(&mut out, &text("cd"));
    push_str(&mut out, "ef");
    assert_eq!(shown(&out), "abcdef");
}

#[test]
fn same_chars_compares_texts() {
    assert!(same_chars(&text("bgm"), &text("bgm")));
    assert!(!same_chars(&text("bgm"), &text("bgn")));
    assert!(!same_chars(&text("bgm"), &text("bg")));
    assert!(same_chars(&text(""), &text("")));
    assert!(is_text(&text("blank"), "blank"));
    assert!(!is_text(&text("blank "), "blank"));
}

#[test]
fn slice_of_takes_a_range() {
    assert_eq!(shown(&slice_of(&text("<!--mv x -->"), 6, 9)), " x ");
    assert_eq!(shown(&slice_of(&text("abc"), 1, 1)), "");
}

#[test]
fn whitespace_is_what_unicode_says() {
    for c in [' ', '\t', '\n', '\r', '\u{b}', '\u{c}', '\u{85}', '\u{a0}', '\u{1680}', '\u{2000}',
        '\u{200a}', '\u{2028}', '\u{2029}', '\u{202f}', '\u{205f}', '\u{3000}']
    {
        assert!(is_whitespace(c));
        assert!(c.is_whitespace());
    }
    for c in ['a', '0', ':', '\u{200b}', '\u{8}', '\u{e}', '\u{2007}'] {
        assert_eq!(is_whitespace(c), c.is_whitespace());
    }
}

#[test]
fn trimmed_drops_white_space_at_both_ends() {
    assert_eq!(shown(&trimmed(&text("  speak \t\r\n"))), "speak");
    assert_eq!(shown(&trimmed(&text("a b"))), "a b");
    assert_eq!(shown(&trimmed(&text(" \u{3000} "))), "");
    assert_eq!(shown(&trimmed(&text(""))), "");
}

#[test]
fn find_from_gives_the_first_index() {
    assert_eq!(find_from(&text("a:b:c"), 0, ':'), 1);
    assert_eq!(find_from(&text("a:b:c"), 2, ':'), 3);
    assert_eq!(find_from(&text("a:b:c"), 4, ':'), 5);
    assert_eq!(find_from(&text(""), 0, ':'), 0);
}

#[test]
fn split_at_first_cuts_at_the_first_separator() {
    let (head, tail) = split_at_first(&text("speak_in: bob: hi"), ':').unwrap();
    assert_eq!(shown(&head), "speak_in");
    assert_eq!(shown(&tail), " bob: hi");
    assert!(split_at_first(&text("no separator"), ':').is_none());
    let (head, tail) = split_at_first(&text(":"), ':').unwrap();
    assert_eq!(shown(&head), "");
    assert_eq!(shown(&tail), "");
}

#[test]
fn split_chars_gives_one_piece_more_than_separators() {
    let pieces: Vec<String> = split_chars(&text("a,b,,c"), ',').iter().map(shown).collect();
    assert_eq!(pieces, vec!["a", "b", "", "c"]);
    let pieces: Vec<String> = split_chars(&text(""), ',').iter().map(shown).collect();
    assert_eq!(pieces, vec![""]);
    let pieces: Vec<String> = split_chars(&text("a,"), ',').iter().map(shown).collect();
    assert_eq!(pieces, vec!["a", ""]);
}

#[test]
fn has_at_finds_a_pattern_in_place() {
    assert!(has_at(&text("<!--mv"), &text("--"), 2));
    assert!(!has_at(&text("<!--mv"), &text("--"), 1));
    assert!(!has_at(&text("<!--mv"), &text("mvx"), 4));
    assert!(has_at(&text("abc"), &text(""), 3));
    assert!(!has_at(&text("abc"), &text(""), 4));
}

#[test]
fn begins_finishes_and_holds() {
    assert!(begins_with(&text("<!--mv\n-->"), "<!--mv"));
    assert!(!begins_with(&text("<!-"), "<!--"));
    assert!(finishes_with(&text("<!--mv\n-->"), "-->"));
    assert!(!finishes_with(&text("->"), "-->"));
    assert!(holds_text(&text("<!-- headingDivider: 2 -->"), "headingDivider"));
    assert!(!holds_text(&text("<!-- headingDivide -->"), "headingDivider"));
    assert!(holds_text(&text("abc"), ""));
    assert!(holds_text(&text("abc"), "abc"));
}

#[test]
fn digits_of_whole_numbers() {
    let mut out = Vec::new();
    push_nat(&mut out, 0);
    push_nat(&mut out, 7);
    push_nat(&mut out, 1280);
    push_nat(&mut out, u64::MAX);
    assert_eq!(shown(&out), "0712801844674407370955161" .to_owned() + "5");
    assert_eq!(digit_of(9), '9');
    assert_eq!(unit_of(0), 1);
    assert_eq!(unit_of(6), 1_000_000);
    assert_eq!(unit_of(18), 1_000_000_000_000_000_000);
}

#[test]
fn padded_numbers_have_at_least_the_width() {
    let mut out = Vec::new();
    push_padded(&mut out, 1, 3);
    out.push(' ');
    push_padded(&mut out, 42, 3);
    out.push(' ');
    push_padded(&mut out, 999, 3);
    out.push(' ');
    push_padded(&mut out, 1000, 3);
    out.push(' ');
    push_padded(&mut out, 0, 0);
    assert_eq!(shown(&out), "001 042 999 1000 0");
}

#[test]
fn fixed_point_numbers_drop_trailing_zeros() {
    assert_eq!(fixed(1_700_000, 6), "1.7");
    assert_eq!(fixed(0, 6), "0");
    assert_eq!(fixed(2_000_000, 6), "2");
    assert_eq!(fixed(1, 6), "0.000001");
    assert_eq!(fixed(1_050_000, 6), "1.05");
    assert_eq!(fixed(500, 3), "0.5");
    assert_eq!(fixed(1234, 3), "1.234");
    assert_eq!(fixed(100_000, 5), "1");
    assert_eq!(fixed(50_000, 5), "0.5");
    assert_eq!(fixed(12_500, 5), "0.125");
    assert_eq!(fixed(250_000, 5), "2.5");
    assert_eq!(fixed(17, 0), "17");
    assert_eq!(fixed(u64::MAX, 18), "18.446744073709551615");
}

#[test]
fn digits_are_read_as_numbers() {
    assert!(only_digits(&text("0123456789")));
    assert!(only_digits(&text("")));
    assert!(!only_digits(&text("12a")));
    assert!(!only_digits(&text("\u{661}")));
    assert_eq!(value_of(&text("")), Some(0));
    assert_eq!(value_of(&text("007")), Some(7));
    assert_eq!(value_of(&text("18446744073709551615")), Some(u64::MAX));
    assert_eq!(value_of(&text("18446744073709551616")), None);
    assert_eq!(value_of(&text("99999999999999999999999")), None);
}

#[test]
fn counts_are_read_as_rust_reads_them() {
    for s in ["0", "500", "+5", "007", "", "+", "-1", "1 ", " 1", "1_000", "12a", "1.5",
        "18446744073709551615", "18446744073709551616", "++1"]
    {
        assert_eq!(read_count(&text(s)), s.parse::<usize>().ok());
    }
    assert_eq!(read_count(&text("500")), Some(500));
    assert_eq!(read_count(&text("+5")), Some(5));
    assert_eq!(read_count(&text("-1")), None);
}

#[test]
fn fixed_point_numbers_are_read_in_units() {
    assert_eq!(read_fixed(&text("50"), 3), Some(50_000));
    assert_eq!(read_fixed(&text("12.5"), 3), Some(12_500));
    assert_eq!(read_fixed(&text("0.001"), 3), Some(1));
    assert_eq!(read_fixed(&text("100."), 3), Some(100_000));
    assert_eq!(read_fixed(&text("1.200000"), 6), Some(1_200_000));
    assert_eq!(read_fixed(&text("7"), 0), Some(7));
    assert_eq!(read_fixed(&text("1.2345"), 3), Some(1_234));
    assert_eq!(read_fixed(&text("1.9999"), 3), Some(1_999));
    assert_eq!(read_fixed(&text("0.0009"), 3), Some(0));
    assert_eq!(read_fixed(&text("7.5"), 0), Some(7));
    assert_eq!(read_fixed(&text(".5"), 3), Some(500));
    assert_eq!(read_fixed(&text("+12.5"), 3), Some(12_500));
    assert_eq!(read_fixed(&text("+.5"), 3), Some(500));
    assert_eq!(read_fixed(&text("."), 3), None);
    assert_eq!(read_fixed(&text("+"), 3), None);
    assert_eq!(read_fixed(&text("++1"), 3), None);
    assert_eq!(read_fixed(&text("1+"), 3), None);
    assert_eq!(read_fixed(&text(" 1"), 3), None);
    assert_eq!(read_fixed(&text(""), 3), None);
    assert_eq!(read_fixed(&text("1.2.3"), 3), None);
    assert_eq!(read_fixed(&text("-1"), 3), None);
    assert_eq!(read_fixed(&text("N/A"), 3), None);
    assert_eq!(read_fixed(&text("N/A"), 6), None);
    assert_eq!(read_fixed(&text("18446744073709551.615"), 3), Some(u64::MAX));
    assert_eq!(read_fixed(&text("18446744073709551.616"), 3), None);
}

#[test]
fn paths_with_a_root_stand_alone() {
    assert!(is_rooted(&text("/a")));
    assert!(!is_rooted(&text("a/b")));
    assert!(!is_rooted(&text("")));
    assert_eq!(shown(&joined(&text("/docs"), &text("/abs/x.png"))), "/abs/x.png");
    assert_eq!(shown(&joined(&text("/docs"), &text("x.png"))), "/docs/x.png");
    assert_eq!(shown(&joined(&text("/docs/"), &text("x.png"))), "/docs/x.png");
    assert_eq!(shown(&joined(&text(""), &text("x.png"))), "x.png");
    assert_eq!(shown(&joined(&text("/docs"), &text(""))), "/docs/");
    assert_eq!(shown(&joined(&text("/"), &text("x"))), "/x");
}

#[test]
fn joined_agrees_with_std_on_these() {
    for (base, p) in [("/docs", "/abs/x.png"), ("/docs", "x.png"), ("/docs/", "x.png"),
        ("", "x.png"), ("/docs", ""), ("/", "x"), ("rel", "a/b")]
    {
        let expected = std::path::Path::new(base).join(p);
        assert_eq!(shown(&joined(&text(base), &text(p))), expected.to_str().unwrap());
    }
}

#[test]
fn parent_is_what_stands_before_the_last_separator() {
    assert_eq!(shown(&parent_of(&text("/docs/deck.md"))), "/docs");
    assert_eq!(shown(&parent_of(&text("/deck.md"))), "/");
    assert_eq!(shown(&parent_of(&text("deck.md"))), "");
    assert_eq!(shown(&parent_of(&text("/a/b/c.md"))), "/a/b");
    assert_eq!(shown(&parent_of(&text("/"))), "/");
    assert_eq!(shown(&parent_of(&text(""))), "");
}

#[test]
fn what_is_written_reads_back() {
    for n in [0, 1, 9, 10, 99, 100, 1_000, 120_000, 1_700_000, 999_999, 1_000_001, u64::MAX] {
        for width in [0, 1, 3, 5, 6, 18] {
            assert_eq!(read_fixed(&text(&fixed(n, width)), width), Some(n));
        }
        let mut out = Vec::new();
        push_nat(&mut out, n);
        assert_eq!(value_of(&out), Some(n));
    }
}

#[test]
fn exponents_move_the_point() {
    assert_eq!(read_fixed(&text("1e3"), 3), Some(1_000_000));
    assert_eq!(read_fixed(&text("1E2"), 3), Some(100_000));
    assert_eq!(read_fixed(&text("1.5e-1"), 3), Some(150));
    assert_eq!(read_fixed(&text("12.5e+1"), 3), Some(125_000));
    assert_eq!(read_fixed(&text("1.e2"), 3), Some(100_000));
    assert_eq!(read_fixed(&text(".5e1"), 3), Some(5_000));
    assert_eq!(read_fixed(&text("0.000001e6"), 3), Some(1_000));
    assert_eq!(read_fixed(&text("1e-3"), 3), Some(1));
    assert_eq!(read_fixed(&text("1e-4"), 3), Some(0));
    assert_eq!(read_fixed(&text("9e-4294967295"), 3), Some(0));
    assert_eq!(read_fixed(&text("0e4294967295"), 3), Some(0));
    assert_eq!(read_fixed(&text("000.000e99"), 6), Some(0));
    assert_eq!(read_fixed(&text("1e16"), 3), Some(10_000_000_000_000_000_000));
    assert_eq!(read_fixed(&text("1e17"), 3), None);
    assert_eq!(read_fixed(&text("1e99"), 3), None);
    assert_eq!(read_fixed(&text("1e4294967296"), 3), None);
    assert_eq!(read_fixed(&text("1e-4294967296"), 3), None);
    assert_eq!(read_fixed(&text("1e"), 3), None);
    assert_eq!(read_fixed(&text("e5"), 3), None);
    assert_eq!(read_fixed(&text(".e5"), 3), None);
    assert_eq!(read_fixed(&text("1e+"), 3), None);
    assert_eq!(read_fixed(&text("1e5e5"), 3), None);
    assert_eq!(read_fixed(&text("1e5.0"), 3), None);
    assert_eq!(read_fixed(&text("1e 5"), 3), None);
    assert_eq!(read_fixed(&text("inf"), 3), None);
    assert_eq!(read_fixed(&text("nan"), 3), None);
    assert_eq!(read_fixed(&text("-0"), 3), None);
}

#[test]
fn numbers_read_as_rust_reads_them_where_they_can_be_held() {
    for (s, units) in [
        ("50", 50_000.0),
        ("+12.5", 12_500.0),
        (".25", 250.0),
        ("7.", 7_000.0),
        ("1e2", 100_000.0),
        ("2.5E-1", 250.0),
        ("0.125e3", 125_000.0),
        ("100", 100_000.0),
    ] {
        let std: f64 = s.parse().unwrap();
        assert_eq!(std * 1000.0, units);
        assert_eq!(read_fixed(&text(s), 3), Some(units as u64));
    }
    for s in ["", "+", ".", "e", "1e", "1.2.3", "1,5", "0x10", "1_000", " 1", "1 ", "++1", "1e1.5"] {
        assert!(s.parse::<f64>().is_err());
        assert_eq!(read_fixed(&text(s), 3), None);
    }
}

#[test]
fn exponents_and_shifts_are_read() {
    assert_eq!(read_exponent(&text("5")), Some(5));
    assert_eq!(read_exponent(&text("+05")), Some(5));
    assert_eq!(read_exponent(&text("-12")), Some(-12));
    assert_eq!(read_exponent(&text("4294967295")), Some(4_294_967_295));
    assert_eq!(read_exponent(&text("-4294967295")), Some(-4_294_967_295));
    assert_eq!(read_exponent(&text("4294967296")), None);
    assert_eq!(read_exponent(&text("")), None);
    assert_eq!(read_exponent(&text("-")), None);
    assert_eq!(read_exponent(&text("1-")), None);
    assert!(only_zeros(&text("000")));
    assert!(only_zeros(&text("")));
    assert!(!only_zeros(&text("010")));
    assert_eq!(scaled_value(&text("125"), 0), Some(125));
    assert_eq!(scaled_value(&text("125"), 2), Some(12_500));
    assert_eq!(scaled_value(&text("125"), -1), Some(12));
    assert_eq!(scaled_value(&text("125"), -3), Some(0));
    assert_eq!(scaled_value(&text("125"), -40), Some(0));
    assert_eq!(scaled_value(&text("125"), i128::MIN), Some(0));
    assert_eq!(scaled_value(&text("125"), 17), Some(12_500_000_000_000_000_000));
    assert_eq!(scaled_value(&text("125"), 18), None);
    assert_eq!(scaled_value(&text("125"), 21), None);
    assert_eq!(scaled_value(&text("000"), 21), Some(0));
    assert_eq!(scaled_value(&text("000"), i128::MAX), Some(0));
    assert_eq!(scaled_value(&text("1"), 19), Some(10_000_000_000_000_000_000));
    assert_eq!(scaled_value(&text("2"), 19), None);
}
