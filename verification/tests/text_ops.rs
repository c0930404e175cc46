use slay::text::{
    chars_of, contains_chars, ends_with, lines_of, split_chars, starts_with, string_of, trim_chars,
    trim_end_chars, words_of,
};

fn cs(s: &str) -> Vec<char> {
    s.chars().collect()
}

fn strs(v: Vec<Vec<char>>) -> Vec<String> {
    v.into_iter().map(|c| c.into_iter().collect()).collect()
}

const SAMPLES: [&str; 12] = [
    "",
    "a",
    "a\n",
    "a\r\nb\r\n",
    "a\r",
    "\n\n",
    "x\ny\rz\n\r",
    "  two  words\there ",
    "\u{a0}nbsp\u{2003}em\u{3000}",
    "k:v::w:",
    ":",
    "ünï/cødé",
];

#[test]
fn lines_agree_with_std() {
    for s in SAMPLES {
        let want: Vec<String> = s.lines().map(|l| l.to_string()).collect();
        assert_eq!(strs(lines_of(&cs(s))), want, "{s:?}");
    }
}

#[test]
fn words_agree_with_std() {
    for s in SAMPLES {
        let want: Vec<String> = s.split_whitespace().map(|l| l.to_string()).collect();
        assert_eq!(strs(words_of(&cs(s))), want, "{s:?}");
    }
}

#[test]
fn split_agrees_with_std() {
    for s in SAMPLES {
        for sep in [':', '/', '\n'] {
            let want: Vec<String> = s.split(sep).map(|l| l.to_string()).collect();
            assert_eq!(strs(split_chars(&cs(s), sep)), want, "{s:?} {sep:?}");
        }
    }
}

#[test]
fn trims_agree_with_std() {
    for s in SAMPLES {
        assert_eq!(trim_chars(&cs(s)).iter().collect::<String>(), s.trim(), "{s:?}");
        assert_eq!(trim_end_chars(&cs(s)).iter().collect::<String>(), s.trim_end(), "{s:?}");
    }
}

#[test]
fn searching_agrees_with_std() {
    for h in SAMPLES {
        for n in ["", "a", "wo", "\n", "ü", "k:v", "words\there", "zz"] {
            assert_eq!(contains_chars(&cs(h), &cs(n)), h.contains(n), "{h:?} {n:?}");
            assert_eq!(starts_with(&cs(h), &cs(n)), h.starts_with(n), "{h:?} {n:?}");
            assert_eq!(ends_with(&cs(h), &cs(n)), h.ends_with(n), "{h:?} {n:?}");
        }
    }
}

#[test]
fn chars_round_trip() {
    for s in SAMPLES {
        assert_eq!(chars_of(s), cs(s));
        assert_eq!(string_of(&cs(s)), s);
    }
}
