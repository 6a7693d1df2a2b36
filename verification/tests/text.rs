use shore_daemon::text::chars::{is_whitespace, to_chars, to_text};
use shore_daemon::text::compose::{byte_count, cat2, cat3, cat4, cat5, clone_option, same_text};
use shore_daemon::text::number::{decimal_text, padded_decimal_text};
use shore_daemon::text::order::is_before;
use shore_daemon::text::path::{components_of, file_stem, join_path};
use shore_daemon::text::search::{
    contains_text, ends_with_text, find_text, replace_text, rfind_text, slice_text,
    starts_with_text,
};
use shore_daemon::text::split::{
    join_texts, keep_nonempty, split_lines, split_on, split_text, split_words,
};
use shore_daemon::text::trim::{
    char_in_class, strip_end_text, strip_start_text, trim_end_text, trim_text, CharClass,
};

const SAMPLES: [&str; 12] = [
    "", " ", "a", "  a b  ", "\u{85}x\u{2003}", "aXbXXc", "é\nü\r\n\rz\n", "\n\n", "aaa", "日本語 text",
    "tab\tand\u{a0}space", "-- x --",
];

fn owned(v: &[&str]) -> Vec<String> {
    v.iter().map(|s| s.to_string()).collect()
}

#[test]
fn white_space_is_that_of_unicode() {
    for u in 0..=0x10ffffu32 {
        if let Some(c) = char::from_u32(u) {
            assert_eq!(is_whitespace(c), c.is_whitespace(), "{u:x}");
        }
    }
}

#[test]
fn classes_of_characters() {
    for c in ['a', 'Z', '0', '_', '-', '\'', 'é', '٣', ' ', '.', '日'] {
        let word = c.is_alphanumeric();
        assert_eq!(char_in_class(CharClass::NotAlphanumeric, c), !word);
        assert_eq!(char_in_class(CharClass::Space, c), c == ' ');
        assert_eq!(char_in_class(CharClass::One('-'), c), c == '-');
        assert_eq!(char_in_class(CharClass::NotQueryWord, c), !word && c != '_' && c != '\'');
        assert_eq!(char_in_class(CharClass::NotSlugWord, c), !word && c != '_' && c != '-');
    }
}

#[test]
fn trimming_as_strings_do() {
    for s in SAMPLES {
        assert_eq!(trim_text(s), s.trim());
        assert_eq!(trim_end_text(s), s.trim_end());
        assert_eq!(strip_start_text(s, CharClass::Space), s.trim_start());
        assert_eq!(strip_end_text(s, CharClass::Space), s.trim_end());
        assert_eq!(strip_start_text(s, CharClass::One('a')), s.trim_start_matches('a'));
        assert_eq!(trim_text(&trim_text(s)), trim_text(s));
    }
}

#[test]
fn searching_as_strings_do() {
    for s in SAMPLES {
        for pat in ["a", "X", "XX", "aa", "\n", "é", "text", "zz"] {
            let count = |i: usize| s[..i].chars().count();
            assert_eq!(find_text(s, pat), s.find(pat).map(count));
            assert_eq!(rfind_text(s, pat), s.rfind(pat).map(count));
            assert_eq!(contains_text(s, pat), s.contains(pat));
            assert_eq!(starts_with_text(s, pat), s.starts_with(pat));
            assert_eq!(ends_with_text(s, pat), s.ends_with(pat));
            assert_eq!(replace_text(s, pat, "<é>"), s.replace(pat, "<é>"));
            assert_eq!(split_on(s, pat), s.split(pat).collect::<Vec<_>>());
        }
    }
    assert_eq!(slice_text("héllo", 1, 3), "él");
}

#[test]
fn splitting_as_strings_do() {
    for s in SAMPLES {
        assert_eq!(split_lines(s), s.lines().collect::<Vec<_>>());
        assert_eq!(split_words(s, CharClass::Space), s.split_whitespace().collect::<Vec<_>>());
        assert_eq!(split_text(s, CharClass::One('X')), s.split('X').collect::<Vec<_>>());
        assert_eq!(join_texts(&split_text(s, CharClass::One('X')), "X"), s);
        assert_eq!(to_text(&to_chars(s), 0, s.chars().count()), s);
        assert_eq!(byte_count(s), s.len());
    }
    assert_eq!(keep_nonempty(&owned(&["", "a", "", "b"])), vec!["a", "b"]);
    assert_eq!(join_texts(&owned(&["a", "", "b"]), ", "), "a, , b");
    assert_eq!(join_texts(&vec![], ", "), "");
}

#[test]
fn texts_are_ordered_as_strings_are() {
    for a in SAMPLES {
        for b in SAMPLES {
            assert_eq!(is_before(a, b), a < b);
            assert_eq!(same_text(a, b), a == b);
        }
    }
    assert!(is_before("\u{ffff}", "\u{10000}"));
}

#[test]
fn numbers_are_written_in_decimal() {
    for n in [0, 7, 10, 99, 100, 4294967296, u64::MAX] {
        assert_eq!(decimal_text(n), n.to_string());
        assert_eq!(padded_decimal_text(n, 4), format!("{n:04}"));
    }
}

#[test]
fn paths_are_joined_as_paths_are() {
    for base in ["", "a", "a/", "/", "a/b"] {
        for name in ["x", "x/y", "/abs", ""] {
            let want = std::path::Path::new(base).join(name);
            assert_eq!(join_path(base, name), want.to_str().unwrap(), "{base} {name}");
        }
    }
    for path in ["a/b.md", "/a//b/./c.tar.gz", "../x", "a/..", ".hidden", "a.", "", "/", "./x", "a/.", "x/.md"] {
        let p = std::path::Path::new(path);
        let want: Vec<&str> = p.components().map(|c| c.as_os_str().to_str().unwrap()).collect();
        assert_eq!(components_of(path), want, "{path}");
        assert_eq!(file_stem(path).as_deref(), p.file_stem().and_then(|s| s.to_str()), "{path}");
    }
}

#[test]
fn texts_are_put_together() {
    assert_eq!(cat2("a", "b"), "ab");
    assert_eq!(cat3("a", "b", "c"), "abc");
    assert_eq!(cat4("a", "b", "c", "d"), "abcd");
    assert_eq!(cat5("a", "b", "c", "d", "e"), "abcde");
    assert_eq!(clone_option(&Some("x".to_string())), Some("x".to_string()));
    assert_eq!(clone_option(&None), None);
}
