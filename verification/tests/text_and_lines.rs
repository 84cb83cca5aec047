use openblas_build::lines::{decode_line, split_lines};
use std::io::BufRead;
use openblas_build::pieces::find_char;
use openblas_build::sorting::{sort_texts, sorted_strings, to_strings};
use openblas_build::text::{
    as_slices, from_chars, lex_less, same_chars, split_chars, split_fields, starts_with,
    to_chars, trim_chars, whitespace,
};

fn chars(s: &str) -> Vec<char> {
    s.chars().collect()
}

fn strings_of(v: Vec<&[char]>) -> Vec<String> {
    v.into_iter().map(|s| s.iter().collect()).collect()
}

#[test]
fn chars_and_strings_convert_both_ways() {
    assert_eq!(to_chars("a-ü€😀"), vec!['a', '-', 'ü', '€', '😀']);
    assert_eq!(to_chars(""), Vec::<char>::new());
    assert_eq!(from_chars(&['a', 'b', 'ü']), "abü");
    assert_eq!(from_chars(&[]), "");
    assert_eq!(from_chars(&to_chars("libm.so.6")), "libm.so.6");
}

#[test]
fn lexicographic_order() {
    assert!(lex_less(&chars("bar"), &chars("foo")));
    assert!(!lex_less(&chars("foo"), &chars("bar")));
    assert!(!lex_less(&chars("foo"), &chars("foo")));
    assert!(lex_less(&chars(""), &chars("a")));
    assert!(!lex_less(&chars(""), &chars("")));
    assert!(lex_less(&chars("ab"), &chars("abc")));
    assert!(!lex_less(&chars("abc"), &chars("ab")));
    assert!(lex_less(&chars("Z"), &chars("a")));
    assert!(lex_less(&chars("a-b"), &chars("a/b")));
    assert!(lex_less(&chars("z"), &chars("ä")));
}

#[test]
fn order_agrees_with_the_order_of_strings() {
    let words = ["", "a", "ab", "b", "B", "é", "e", "€", "😀", "zz", "a b", "a\tb"];
    for x in words {
        for y in words {
            assert_eq!(lex_less(&chars(x), &chars(y)), x < y);
        }
    }
}

#[test]
fn prefixes() {
    assert!(starts_with(&chars("-lfoo"), &chars("-l")));
    assert!(starts_with(&chars("-l"), &chars("-l")));
    assert!(!starts_with(&chars("-"), &chars("-l")));
    assert!(!starts_with(&chars("-Lfoo"), &chars("-l")));
    assert!(starts_with(&chars("abc"), &chars("")));
    assert!(same_chars(&chars("abc"), &chars("abc")));
    assert!(!same_chars(&chars("abc"), &chars("abd")));
    assert!(!same_chars(&chars("abc"), &chars("ab")));
    assert!(same_chars(&chars(""), &chars("")));
}

#[test]
fn splitting_at_a_separator() {
    assert_eq!(strings_of(split_chars(&chars("a b  c"), ' ')), vec!["a", "b", "", "c"]);
    assert_eq!(strings_of(split_chars(&chars(""), ' ')), vec![""]);
    assert_eq!(strings_of(split_chars(&chars(" "), ' ')), vec!["", ""]);
    assert_eq!(strings_of(split_chars(&chars("K=V"), '=')), vec!["K", "V"]);
    assert_eq!(strings_of(split_chars(&chars("K="), '=')), vec!["K", ""]);
    assert_eq!(strings_of(split_chars(&chars("a=b=c"), '=')), vec!["a", "b", "c"]);
    assert_eq!(find_char(&chars("libm.so.6"), '.'), 4);
    assert_eq!(find_char(&chars("libm"), '.'), 4);
    assert_eq!(find_char(&chars(""), '.'), 0);
}

#[test]
fn white_space() {
    for c in [' ', '\t', '\n', '\r', '\u{b}', '\u{c}', '\u{85}', '\u{a0}', '\u{1680}', '\u{2000}', '\u{200a}', '\u{2028}', '\u{2029}', '\u{202f}', '\u{205f}', '\u{3000}'] {
        assert!(whitespace(c));
    }
    for c in ['a', '0', '_', '\u{8}', '\u{e}', '\u{200b}', '\u{feff}', '\u{1}', '\u{2060}'] {
        assert!(!whitespace(c));
    }
}

#[test]
fn white_space_is_that_of_the_standard_library() {
    let mut n: u32 = 0;
    while n < 0x3100 {
        if let Some(c) = char::from_u32(n) {
            assert_eq!(whitespace(c), c.is_whitespace());
        }
        n += 1;
    }
}

#[test]
fn trimming() {
    assert_eq!(trim_chars(&chars("  a b \t\r\n")), &chars("a b")[..]);
    assert_eq!(trim_chars(&chars("a")), &chars("a")[..]);
    assert_eq!(trim_chars(&chars(" \t ")), &chars("")[..]);
    assert_eq!(trim_chars(&chars("")), &chars("")[..]);
    assert_eq!(trim_chars(&chars("\u{a0}x\u{3000}")), &chars("x")[..]);
}

#[test]
fn fields_between_white_space() {
    assert_eq!(strings_of(split_fields(&chars("0000 T name"))), vec!["0000", "T", "name"]);
    assert_eq!(strings_of(split_fields(&chars("  a \t b\n"))), vec!["a", "b"]);
    assert_eq!(strings_of(split_fields(&chars(""))), Vec::<String>::new());
    assert_eq!(strings_of(split_fields(&chars(" \t "))), Vec::<String>::new());
    assert_eq!(strings_of(split_fields(&chars("one"))), vec!["one"]);
}

#[test]
fn lines_of_a_stream() {
    assert_eq!(split_lines(b"a\nb"), vec![&b"a"[..], &b"b"[..]]);
    assert_eq!(split_lines(b"a\nb\n"), vec![&b"a"[..], &b"b"[..]]);
    assert_eq!(split_lines(b""), Vec::<&[u8]>::new());
    assert_eq!(split_lines(b"\n"), vec![&b""[..]]);
    assert_eq!(split_lines(b"\n\n"), vec![&b""[..], &b""[..]]);
    assert_eq!(split_lines(b"a\r\nb\r"), vec![&b"a"[..], &b"b\r"[..]]);
    assert_eq!(split_lines(b"a\r\r\n"), vec![&b"a\r"[..]]);
    assert_eq!(split_lines(b"\r\n"), vec![&b""[..]]);
}

#[test]
fn lines_are_those_of_the_standard_library() {
    let samples: [&[u8]; 8] = [b"", b"\n", b"a", b"a\n", b"a\r\nb\n\nc", b"\r", b"x\r\n\r\n", b"OSNAME=Linux\nNOFORTRAN=1\n"];
    for sample in samples {
        let expected: Vec<Vec<u8>> = sample.lines().map(|l| l.unwrap().into_bytes()).collect();
        let got: Vec<Vec<u8>> = split_lines(sample).into_iter().map(|l| l.to_vec()).collect();
        assert_eq!(got, expected);
    }
}

#[test]
fn decoding_a_line() {
    assert_eq!(decode_line(b"abc"), Some(vec!['a', 'b', 'c']));
    assert_eq!(decode_line(b""), Some(Vec::new()));
    assert_eq!(decode_line("ü€😀".as_bytes()), Some(vec!['ü', '€', '😀']));
    assert_eq!(decode_line(b"\xff"), None);
    assert_eq!(decode_line(b"ab\xc3"), None);
    assert_eq!(decode_line(b"\xed\xa0\x80"), None);
    assert_eq!(decode_line(b"\xc0\x80"), None);
    assert_eq!(decode_line(b"\xf4\x90\x80\x80"), None);
    assert_eq!(decode_line(b"\xf8\x88\x80\x80\x80"), None);
    assert_eq!(decode_line(b"\x80"), None);
    assert_eq!(decode_line(b"\xf4\x8f\xbf\xbf"), Some(vec!['\u{10ffff}']));
    assert_eq!(decode_line(b"\xee\x80\x80"), Some(vec!['\u{e000}']));
}

#[test]
fn sorting_keeps_every_item() {
    let items = vec![chars("b"), chars("a"), chars("c"), chars("a"), chars(""), chars("ab")];
    let sorted = sort_texts(&as_slices(&items));
    assert_eq!(strings_of(sorted), vec!["", "a", "a", "ab", "b", "c"]);
    assert_eq!(sorted_strings(&as_slices(&items)), vec!["", "a", "a", "ab", "b", "c"]);
    assert_eq!(to_strings(&as_slices(&items)), vec!["b", "a", "c", "a", "", "ab"]);
    assert_eq!(sorted_strings(&Vec::new()), Vec::<String>::new());
}

#[test]
fn sorting_many_items() {
    let mut items: Vec<Vec<char>> = Vec::new();
    let mut x: u32 = 12345;
    for _ in 0..2000 {
        x = x.wrapping_mul(1103515245).wrapping_add(12345);
        items.push(chars(&format!("sym_{}", (x >> 8) % 700)));
    }
    let got = sorted_strings(&as_slices(&items));
    let mut expected: Vec<String> = items.iter().map(|c| c.iter().collect()).collect();
    expected.sort();
    assert_eq!(got, expected);
    let set = openblas_build::as_sorted_vec(&as_slices(&items));
    expected.dedup();
    assert_eq!(set, expected);
}

const SAMPLES: [&str; 14] = [
    "",
    " ",
    "a",
    "  a  b  ",
    "-L/usr/lib -lfoo  -lbar",
    "0000000000909b30 T zupmtr_",
    "                 U malloc",
    "\tNEEDED               libm.so.6\r",
    "-l-l-lx",
    "NEEDEDNEEDED",
    "a\u{a0}b\u{3000}c",
    "=a==b=",
    "- L -L- l-",
    "x\u{85}\u{2028}y ",
];

#[test]
fn splitting_is_that_of_the_standard_library() {
    for sample in SAMPLES {
        let c = chars(sample);
        for sep in [' ', '=', '.', '-'] {
            let expected: Vec<String> = sample.split(sep).map(|p| p.to_string()).collect();
            assert_eq!(strings_of(split_chars(&c, sep)), expected);
            assert_eq!(find_char(&c, sep), sample.chars().position(|x| x == sep).unwrap_or(c.len()));
        }
        let expected: Vec<String> = sample.split_whitespace().map(|p| p.to_string()).collect();
        assert_eq!(strings_of(split_fields(&c)), expected);
    }
}

#[test]
fn trimming_is_that_of_the_standard_library() {
    for sample in SAMPLES {
        let c = chars(sample);
        assert_eq!(trim_chars(&c), &chars(sample.trim())[..]);
        for prefix in ["-L", "-l", "NEEDED", " ", "a", ""] {
            assert_eq!(starts_with(&c, &chars(prefix)), sample.starts_with(prefix));
        }
    }
}
