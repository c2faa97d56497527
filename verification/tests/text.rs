use athroisma::text::{
    cut_at, ends_with, find_last, find_line, has_part, is_word, run_end, same, split_lines,
    split_words, starts_with, to_chars, to_text, trimmed, word_at, Class,
};

fn strings(v: &[&[char]]) -> Vec<String> {
    v.iter().map(|w| w.iter().collect()).collect()
}

const SAMPLES: [&str; 12] = [
    "",
    " ",
    "one",
    " one  two\tthree\n",
    "a\u{a0}b\u{2003}c\u{3000}",
    "x\u{b}y\u{c}z",
    "line1\nline2",
    "line1\r\nline2\r\n",
    "\n\n",
    "a\rb\n\r\nc\r",
    "\u{85}edge\u{2028}",
    "caf\u{e9} \u{4e2d}\u{6587}",
];

#[test]
fn spaces_are_those_of_unicode() {
    for c in '\0'..=char::MAX {
        assert_eq!(Class::Space.holds(c), c.is_whitespace(), "{:?}", c);
        assert_eq!(Class::AsciiSpace.holds(c), c.is_ascii_whitespace(), "{:?}", c);
    }
    assert!(Class::Is('x').holds('x'));
    assert!(!Class::Is('x').holds('y'));
}

#[test]
fn words_are_split_at_blanks() {
    for s in SAMPLES {
        let chars = to_chars(s);
        let expected: Vec<&str> = s.split_whitespace().collect();
        assert_eq!(strings(&split_words(&chars, Class::Space)), expected);
        let ascii: Vec<&str> = s.split_ascii_whitespace().collect();
        assert_eq!(strings(&split_words(&chars, Class::AsciiSpace)), ascii);
    }
}

#[test]
fn words_around_a_blank() {
    let both = strings(&split_words(&to_chars("a b \u{2003} c d"), Class::Space));
    let mut parts = strings(&split_words(&to_chars("a b "), Class::Space));
    parts.extend(strings(&split_words(&to_chars(" c d"), Class::Space)));
    assert_eq!(both, parts);
    assert_eq!(both, ["a", "b", "c", "d"]);
}

#[test]
fn lines_end_at_line_feeds() {
    for s in SAMPLES {
        let chars = to_chars(s);
        let expected: Vec<&str> = s.lines().collect();
        assert_eq!(strings(&split_lines(&chars)), expected);
    }
    assert_eq!(strings(&split_lines(&to_chars("a\r\nb\r"))), ["a", "b\r"]);
}

#[test]
fn trimming_takes_both_ends() {
    for s in SAMPLES {
        let chars = to_chars(s);
        assert_eq!(to_text(trimmed(&chars)), s.trim());
    }
}

#[test]
fn text_goes_there_and_back() {
    for s in SAMPLES {
        assert_eq!(to_text(&to_chars(s)), s);
    }
    assert_eq!(to_text(&['a', 'b', '\u{e9}']), "ab\u{e9}");
}

#[test]
fn prefixes_suffixes_and_parts() {
    let s = to_chars("drm-driver: amdgpu");
    assert!(starts_with(&s, &to_chars("drm-driver:")));
    assert!(!starts_with(&s, &to_chars("drm-driver:x")));
    assert!(ends_with(&s, &to_chars("gpu")));
    assert!(!ends_with(&s, &to_chars("gpus")));
    assert!(has_part(&s, &to_chars("amdgpu")));
    assert!(has_part(&s, &to_chars("")));
    assert!(!has_part(&s, &to_chars("nvidia")));
    assert!(!has_part(&to_chars("xe"), &to_chars("xe1")));
    assert!(same(&s, &to_chars("drm-driver: amdgpu")));
    assert!(is_word(&to_chars("lo"), "lo"));
    assert!(!is_word(&to_chars("lo0"), "lo"));
}

#[test]
fn places_in_text() {
    let s = to_chars("1 (a) b) S");
    assert_eq!(find_last(&s, ')'), Some(7));
    assert_eq!(find_last(&s, 'x'), None);
    assert_eq!(run_end(&s, 0, Class::Is('('), false), 2);
    assert_eq!(run_end(&s, 2, Class::Is('('), true), 3);
    let (a, b) = cut_at(&s, '(').unwrap();
    assert_eq!((to_text(a), to_text(b)), ("1 ".to_string(), "a) b) S".to_string()));
    assert!(cut_at(&s, ':').is_none());
    assert_eq!(to_text(word_at(&s, 2).unwrap()), "b)");
    assert!(word_at(&s, 4).is_none());
}

#[test]
fn first_line_with_a_key() {
    let s = to_chars("a: 1\nb: 2\na: 3\n");
    let all = split_lines(&s);
    assert_eq!(to_text(find_line(&all, "a:").unwrap()), "a: 1");
    assert_eq!(to_text(find_line(&all, "b").unwrap()), "b: 2");
    assert!(find_line(&all, "c").is_none());
}
