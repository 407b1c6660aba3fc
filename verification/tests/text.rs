use fop::order::less;
use fop::text::{
    ascii_lowercase, byte_len_below, chars_of, contains, ends_with, find, is_whitespace, join,
    lines, replace_all, replace_first, split, starts_with, string_of, strip_leading,
    to_ascii_lower, to_decimal, to_lowercase, to_two_digits, trim, trim_start,
};
use fop::unique::{drop_repeats, unique};

fn c(s: &str) -> Vec<char> {
    s.chars().collect()
}

fn s(v: &Vec<char>) -> String {
    v.iter().collect()
}

const SAMPLES: &[&str] = &[
    "", "a", "ab", "aba", "abab", "a,b", ",a,,b,", "||x.com^$domain=a.com|b.com", "  x  ",
    "\t\u{a0}x y\u{3000}\r\n", "é", "éa", "a\u{10348}b", "~~a", "~", "déjà vu", "ÀÉ",
    "aaa", "aaaa", "$$$", "x$y$", "\n", "\r\n", "a\nb", "a\r\nb\r\n", "a\n\nb\n", "\r",
];

#[test]
fn strings_and_characters_convert_both_ways() {
    for text in SAMPLES {
        assert_eq!(chars_of(text), c(text));
        assert_eq!(&string_of(&c(text)), text);
    }
}

#[test]
fn whitespace_and_ascii_case_agree_with_the_standard_library() {
    for code in 0..=0x10FFFFu32 {
        if let Some(ch) = char::from_u32(code) {
            assert_eq!(is_whitespace(ch), ch.is_whitespace(), "{:x}", code);
            assert_eq!(to_ascii_lower(ch), ch.to_ascii_lowercase(), "{:x}", code);
        }
    }
}

#[test]
fn byte_length_agrees_with_the_standard_library() {
    for text in SAMPLES {
        for n in 0..20 {
            assert_eq!(byte_len_below(&c(text), n), text.len() < n, "{:?} {}", text, n);
        }
    }
    for code in [0u32, 0x7f, 0x80, 0x7ff, 0x800, 0xffff, 0x10000, 0x10ffff] {
        let ch = char::from_u32(code).unwrap();
        let text = ch.to_string();
        for n in 0..6 {
            assert_eq!(byte_len_below(&c(&text), n), text.len() < n);
        }
    }
}

#[test]
fn searching_agrees_with_the_standard_library() {
    for text in SAMPLES {
        for pat in SAMPLES {
            let (t, p) = (c(text), c(pat));
            assert_eq!(starts_with(&t, &p), text.starts_with(pat), "{:?} {:?}", text, pat);
            assert_eq!(ends_with(&t, &p), text.ends_with(pat), "{:?} {:?}", text, pat);
            assert_eq!(contains(&t, &p), text.contains(pat), "{:?} {:?}", text, pat);
            let at = text.find(pat).map(|b| text[..b].chars().count());
            assert_eq!(find(&t, &p), at, "{:?} {:?}", text, pat);
        }
    }
}

#[test]
fn replacing_agrees_with_the_standard_library() {
    for text in SAMPLES {
        for pat in SAMPLES {
            for to in ["", "X", "ab"] {
                let (t, p, r) = (c(text), c(pat), c(to));
                assert_eq!(s(&replace_first(&t, &p, &r)), text.replacen(pat, to, 1), "{:?} {:?}", text, pat);
                if !pat.is_empty() {
                    assert_eq!(s(&replace_all(&t, &p, &r)), text.replace(pat, to), "{:?} {:?}", text, pat);
                } else {
                    assert_eq!(&s(&replace_all(&t, &p, &r)), text);
                }
            }
        }
    }
}

#[test]
fn splitting_and_joining_agree_with_the_standard_library() {
    for text in SAMPLES {
        for sep in [',', '|', 'a', '\n'] {
            let parts: Vec<String> = split(&c(text), sep).iter().map(s).collect();
            let expected: Vec<String> = text.split(sep).map(|p| p.to_string()).collect();
            assert_eq!(parts, expected, "{:?} {:?}", text, sep);
            for glue in ["", ",", ", "] {
                let joined = join(&split(&c(text), sep), &c(glue));
                assert_eq!(s(&joined), expected.join(glue));
            }
        }
        let rows: Vec<String> = lines(&c(text)).iter().map(s).collect();
        let expected: Vec<String> = text.lines().map(|p| p.to_string()).collect();
        assert_eq!(rows, expected, "{:?}", text);
    }
    assert_eq!(s(&join(&Vec::new(), &c(","))), "");
}

#[test]
fn trimming_and_case_agree_with_the_standard_library() {
    for text in SAMPLES {
        assert_eq!(s(&trim(&c(text))), text.trim(), "{:?}", text);
        assert_eq!(s(&trim_start(&c(text))), text.trim_start(), "{:?}", text);
        assert_eq!(s(&strip_leading(&c(text), '~')), text.trim_start_matches('~'));
        assert_eq!(s(&ascii_lowercase(&c(text))), text.to_ascii_lowercase());
        assert_eq!(s(&to_lowercase(&c(text))), text.to_lowercase());
    }
    assert_eq!(s(&to_lowercase(&c("ÀÉ Straße ΑΒΓ"))), "àé straße αβγ");
}

#[test]
fn order_agrees_with_the_standard_library() {
    for a in SAMPLES {
        for b in SAMPLES {
            assert_eq!(less(&c(a), &c(b)), a < b, "{:?} {:?}", a, b);
        }
    }
}

#[test]
fn numbers_are_written_in_decimal() {
    for n in [0u64, 1, 9, 10, 11, 99, 100, 101, 1970, 12345678901234567890, u64::MAX] {
        assert_eq!(s(&to_decimal(n)), n.to_string());
        assert_eq!(s(&to_two_digits(n)), format!("{:02}", n));
    }
}

#[test]
fn repeated_lines_go() {
    let list: Vec<Vec<char>> = ["b", "a", "b", "b", "c", "a", ""].iter().map(|t| c(t)).collect();
    let once: Vec<String> = unique(&list).iter().map(s).collect();
    assert_eq!(once, vec!["b", "a", "c", ""]);
    let neighbours: Vec<String> = drop_repeats(&list).iter().map(s).collect();
    assert_eq!(neighbours, vec!["b", "a", "b", "c", "a", ""]);
    assert!(unique(&Vec::new()).is_empty());
    assert!(drop_repeats(&Vec::new()).is_empty());
}
