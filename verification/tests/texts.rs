use yyw::letters::eq_ignore_ascii_case;
use yyw::number::{decimal_text, parse_u64, push_decimal, push_hex, push_padded, signed_text};
use yyw::order::{stable_order, text_not_above};
use yyw::pattern::{
    after_first, before_char, contains, contains_char, ends_with_char, fields, join, replace,
    starts_with_char,
};
use yyw::text::{first_word, lines, same_text, trim};

fn key(parts: &[&str]) -> Vec<Vec<char>> {
    parts.iter().map(|p| p.chars().collect()).collect()
}

#[test]
fn decimal_of_numbers() {
    assert_eq!(decimal_text(0), "0");
    assert_eq!(decimal_text(10), "10");
    assert_eq!(decimal_text(u64::MAX), u64::MAX.to_string());
}

#[test]
fn decimal_reads_back() {
    for n in [0, 1, 9, 10, 99, 100, 65536, u64::MAX] {
        assert_eq!(parse_u64(&decimal_text(n)), Some(n));
    }
}

#[test]
fn unsigned_parsing_edges() {
    for s in ["", "+", "-1", "+1", "007", "18446744073709551615", "18446744073709551616", "1 ", "٣"]
    {
        assert_eq!(parse_u64(s), s.parse::<u64>().ok(), "{s:?}");
    }
}

#[test]
fn padding_keeps_long_numbers() {
    let mut out = String::from("x");
    push_padded(&mut out, 7, 2);
    push_padded(&mut out, 123, 2);
    push_decimal(&mut out, 4);
    assert_eq!(out, "x071234");
}

#[test]
fn signed_and_hexadecimal() {
    assert_eq!(signed_text(-1), "-1");
    assert_eq!(signed_text(i32::MIN), i32::MIN.to_string());
    assert_eq!(signed_text(42), "42");
    let mut out = String::new();
    push_hex(&mut out, 0xdead_beef_0012);
    assert_eq!(out, "deadbeef0012");
    let mut zero = String::new();
    push_hex(&mut zero, 0);
    assert_eq!(zero, "0");
}

#[test]
fn trimming_is_that_of_unicode() {
    let s = "\u{3000}\t 歌 词 \u{a0}\r\n";
    assert_eq!(trim(s), s.trim());
    assert_eq!(trim("   "), "");
    assert_eq!(trim("\u{200b}x"), "\u{200b}x".trim());
}

#[test]
fn first_words() {
    assert_eq!(first_word("  128 kb/s"), Some("128".to_string()));
    assert_eq!(first_word(" \t"), None);
}

#[test]
fn lines_end_like_those_of_std() {
    for s in ["", "\n", "a\nb", "a\r\nb\r\n", "a\r", "\r\n\n", "a\rb\n"] {
        let want: Vec<String> = s.lines().map(|l| l.to_string()).collect();
        assert_eq!(lines(s), want, "{s:?}");
    }
}

#[test]
fn splitting_and_joining() {
    assert_eq!(fields("01:02:03", ':'), vec!["01", "02", "03"]);
    assert_eq!(fields("", ':'), vec![""]);
    assert_eq!(fields(":", ':'), vec!["", ""]);
    assert_eq!(before_char("a,b,c", ','), "a");
    assert_eq!(before_char("abc", ','), "abc");
    assert_eq!(after_first("x: y: z", ": "), Some("y: z".to_string()));
    assert_eq!(after_first("xyz", ": "), None);
    let parts = vec!["a".to_string(), "b".to_string(), String::new()];
    assert_eq!(join(&parts, " / "), parts.join(" / "));
    assert_eq!(join(&Vec::new(), "x"), "");
}

#[test]
fn replacing_is_that_of_std() {
    for (s, p, w) in [
        ("{model}-{model}", "{model}", "m"),
        ("aaa", "aa", "b"),
        ("none", "x", "y"),
        ("{model}", "{model}", "{model}"),
        ("歌{output}词", "{output}", "出"),
    ] {
        assert_eq!(replace(s, p, w), s.replace(p, w));
    }
}

#[test]
fn containing() {
    assert!(contains("已找到 FLAC", "已找到"));
    assert!(!contains("abc", "abd"));
    assert!(contains("abc", ""));
    assert!(contains_char("a b", ' '));
    assert!(!contains_char("ab", ' '));
    assert!(starts_with_char("{x}", '{') && ends_with_char("{x}", '}'));
    assert!(!starts_with_char("", '{') && !ends_with_char("", '}'));
    assert!(same_text("a", "a") && !same_text("a", "A"));
}

#[test]
fn ascii_case_only() {
    assert!(eq_ignore_ascii_case("Python.EXE", "python.exe"));
    assert!(!eq_ignore_ascii_case("É", "é"));
    assert!(!eq_ignore_ascii_case("python", "python.exe"));
}

#[test]
fn order_of_texts_is_that_of_std() {
    let all = ["", "a", "ab", "b", "歌", "𝄞", "Z"];
    for a in all {
        for b in all {
            let x: Vec<char> = a.chars().collect();
            let y: Vec<char> = b.chars().collect();
            assert_eq!(text_not_above(&x, &y), a <= b, "{a} {b}");
        }
    }
}

#[test]
fn sorting_is_stable_and_complete() {
    let keys = vec![
        key(&["b", "x"]),
        key(&["a", "z"]),
        key(&["b", "x"]),
        key(&["a", "y"]),
        key(&["a"]),
    ];
    assert_eq!(stable_order(&keys), vec![4, 3, 1, 0, 2]);
    assert_eq!(stable_order(&Vec::new()), Vec::<usize>::new());
}
