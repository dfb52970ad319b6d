use barrel_files::text::{
    append_chars, chars_of, comes_before, copy_range, copy_strings, count_of, decimal_chars,
    ends_with, find_from, glue, glue3, has_char_between, matches_at, same_str, same_text,
    split_on, starts_with, string_of,
};

fn chars(s: &str) -> Vec<char> {
    s.chars().collect()
}

#[test]
fn strings_and_characters_convert_both_ways() {
    assert_eq!(chars_of("a/é✓"), vec!['a', '/', 'é', '✓']);
    assert_eq!(chars_of(""), Vec::<char>::new());
    assert_eq!(string_of(&chars("a/é✓")), "a/é✓");
    assert_eq!(copy_range(&chars("abcdef"), 2, 4), chars("cd"));
    assert_eq!(copy_range(&chars("abcdef"), 3, 3), chars(""));
    let mut text = chars("ab");
    append_chars(&mut text, &chars("cd"));
    assert_eq!(text, chars("abcd"));
    assert_eq!(glue("ab", "cd"), "abcd");
    assert_eq!(glue3("a", "", "c"), "ac");
    assert_eq!(
        copy_strings(&vec!["x".to_string(), "".to_string()]),
        vec!["x", ""]
    );
}

#[test]
fn texts_are_compared_character_by_character() {
    assert!(same_text(&chars("abc"), &chars("abc")));
    assert!(!same_text(&chars("abc"), &chars("abd")));
    assert!(!same_text(&chars("abc"), &chars("ab")));
    assert!(same_str("", ""));
    assert!(!same_str("a", "A"));
    assert!(starts_with(&chars("abc"), &chars("")));
    assert!(starts_with(&chars("abc"), &chars("ab")));
    assert!(!starts_with(&chars("ab"), &chars("abc")));
    assert!(ends_with(&chars("abc"), &chars("bc")));
    assert!(ends_with(&chars("abc"), &chars("")));
    assert!(!ends_with(&chars("bc"), &chars("abc")));
    assert!(matches_at(&chars("abcabc"), &chars("ca"), 2));
    assert!(!matches_at(&chars("abcabc"), &chars("ca"), 3));
    assert!(!matches_at(&chars("abc"), &chars("c"), 3));
    assert!(matches_at(&chars("abc"), &chars(""), 3));
    assert!(!matches_at(&chars("abc"), &chars(""), 4));
}

#[test]
fn first_occurrence_is_searched_from_a_position() {
    let hay = chars("abcabc");
    assert_eq!(find_from(&hay, &chars("bc"), 0), Some(1));
    assert_eq!(find_from(&hay, &chars("bc"), 1), Some(1));
    assert_eq!(find_from(&hay, &chars("bc"), 2), Some(4));
    assert_eq!(find_from(&hay, &chars("bc"), 5), None);
    assert_eq!(find_from(&hay, &chars("x"), 0), None);
    assert_eq!(find_from(&hay, &chars(""), 6), Some(6));
    assert_eq!(find_from(&hay, &chars(""), 7), None);
    assert_eq!(find_from(&hay, &chars("abcabcd"), 0), None);
    assert!(has_char_between(&hay, 'c', 0, 3));
    assert!(!has_char_between(&hay, 'c', 0, 2));
    assert!(!has_char_between(&hay, 'c', 3, 3));
}

#[test]
fn split_keeps_empty_pieces() {
    let pieces = |s: &str| -> Vec<String> {
        split_on(&chars(s), '/')
            .iter()
            .map(|p| p.iter().collect())
            .collect()
    };
    for text in ["", "/", "a", "a/b", "/a//b/", "é/✓"] {
        let expected: Vec<String> = text.split('/').map(|p| p.to_string()).collect();
        assert_eq!(pieces(text), expected, "{:?}", text);
    }
    assert_eq!(count_of(&chars("/a//b/"), '/'), 4);
    assert_eq!(count_of(&chars(""), '/'), 0);
}

#[test]
fn dictionary_order_is_the_order_of_strings() {
    let texts = ["", "a", "A", "ab", "b", "./a", "../a", "é", "z", "✓", "a/b", "a-b", "a_b"];
    for a in texts {
        for b in texts {
            assert_eq!(comes_before(&chars(a), &chars(b)), a < b, "{:?} {:?}", a, b);
        }
    }
}

#[test]
fn numbers_are_written_in_base_ten() {
    for n in [0usize, 1, 9, 10, 11, 99, 100, 12345, usize::MAX] {
        assert_eq!(string_of(&decimal_chars(n)), n.to_string());
    }
}
