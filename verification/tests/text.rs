use maximum_league::text::is_at_char_boundary;
use maximum_league::text::{
    chars_of, joined, contains_chars, head_preview, replace_chars, same_ignoring_ascii_case_exec,
    same_text, split_chars, string_of, strip_braces_exec, tail_preview, trim_chars,
};

fn v(s: &str) -> Vec<char> {
    s.chars().collect()
}

#[test]
fn trimming_matches_std() {
    for s in ["", "  ", " a ", "\u{2003}x y\u{205f}", "\u{85}z", "a\u{200b}"] {
        let got: String = trim_chars(&v(s)).into_iter().collect();
        assert_eq!(got, s.trim(), "input {:?}", s);
    }
}

#[test]
fn splitting_matches_std() {
    for s in ["", ":", "a:b", "a::b:", "/lol/{id}/x"] {
        for sep in [':', '/'] {
            let got: Vec<String> = split_chars(&v(s), sep).into_iter().map(|p| p.into_iter().collect()).collect();
            let expected: Vec<String> = s.split(sep).map(|p| p.to_string()).collect();
            assert_eq!(got, expected, "input {:?}", s);
        }
    }
}

#[test]
fn replacing_matches_std() {
    for (s, p, r) in [("a{}b{}", "{}", "ID"), ("{}{}{", "{}", ""), ("aaa", "aa", "b"), ("", "x", "y")] {
        let got: String = replace_chars(&v(s), &v(p), &v(r)).into_iter().collect();
        assert_eq!(got, s.replace(p, r));
    }
}

#[test]
fn containment_and_equality() {
    assert!(contains_chars(&v("lol-champion-mastery"), &v("mastery")));
    assert!(!contains_chars(&v("mast"), &v("mastery")));
    assert!(contains_chars(&v(""), &v("")));
    assert!(same_text("null", "null"));
    assert!(!same_text("null", "nul"));
    assert!(same_ignoring_ascii_case_exec(&v("BaN"), &v("ban")));
    assert!(!same_ignoring_ascii_case_exec(&v("bän"), &v("ban")));
    assert_eq!(joined("a", "b"), "ab");
    assert_eq!(string_of(&chars_of("héllo")), "héllo");
}

#[test]
fn brace_stripping_matches_trim_matches() {
    for s in ["{id}", "{{id}}", "{}", "id", "{id"] {
        let got: String = strip_braces_exec(&v(s)).into_iter().collect();
        assert_eq!(got, s.trim_matches(|c| c == '{' || c == '}'));
    }
}

#[test]
fn previews_cut_at_byte_offsets() {
    assert_eq!(head_preview("abcdef", 3), "abc...");
    assert_eq!(head_preview("abc", 3), "abc");
    assert_eq!(head_preview("äbc", 2), "ä...");
    assert_eq!(tail_preview("12345678"), "12345678");
    assert_eq!(tail_preview("123456789"), "...6789");
    assert_eq!(tail_preview("abcdefgh€"), "...h€");
}

#[test]
fn char_boundaries_match_std() {
    for s in ["", "abc", "äb€c", "😀x"] {
        for n in 0..=s.len() + 2 {
            assert_eq!(is_at_char_boundary(s, n), s.is_char_boundary(n), "{:?} {}", s, n);
        }
    }
}
