use getapi::error::GetapiError;
use getapi::strmap::StrMap;
use getapi::text::{
    chars_eq, chars_of, concat3, contains_string, find, is_space_char, join_strings, less,
    matches_at, position_of_string, slice_of, starts_with, str_eq, string_of, trimmed,
};

fn chars(s: &str) -> Vec<char> {
    s.chars().collect()
}

#[test]
fn conversions_round_trip() {
    assert_eq!(chars_of("héllo"), vec!['h', 'é', 'l', 'l', 'o']);
    assert_eq!(string_of(&chars("héllo")), "héllo");
    assert_eq!(chars_of(""), Vec::<char>::new());
    assert!(str_eq("a", "a"));
    assert!(!str_eq("a", "b"));
    assert!(chars_eq(&chars("ab"), &chars("ab")));
    assert!(!chars_eq(&chars("ab"), &chars("abc")));
    assert_eq!(getapi::text::concat("a", "b"), "ab");
    assert_eq!(concat3("a", "b", "c"), "abc");
    assert_eq!(slice_of(&chars("hello"), 1, 3), chars("el"));
}

#[test]
fn white_space_is_the_unicode_property() {
    for c in [' ', '\t', '\n', '\r', '\u{b}', '\u{c}', '\u{85}', '\u{a0}', '\u{1680}', '\u{2000}', '\u{200a}', '\u{2028}', '\u{2029}', '\u{202f}', '\u{205f}', '\u{3000}'] {
        assert!(is_space_char(c), "{:?}", c);
        assert!(c.is_whitespace());
    }
    for c in ['a', '\u{200b}', '\u{180e}', '\u{feff}', '0', '\u{8}'] {
        assert!(!is_space_char(c), "{:?}", c);
        assert!(!c.is_whitespace());
    }
}

#[test]
fn trimming() {
    assert_eq!(trimmed(&chars("  a b \t\n")), chars("a b"));
    assert_eq!(trimmed(&chars(" \u{3000} ")), chars(""));
    assert_eq!(trimmed(&chars("x")), chars("x"));
    assert_eq!(trimmed(&chars("")), chars(""));
}

#[test]
fn searching() {
    let hay = chars("abcabc");
    assert_eq!(find(&hay, &chars("bc"), 0), Some(1));
    assert_eq!(find(&hay, &chars("bc"), 2), Some(4));
    assert_eq!(find(&hay, &chars("bc"), 5), None);
    assert_eq!(find(&hay, &chars(""), 6), Some(6));
    assert_eq!(find(&hay, &chars(""), 7), None);
    assert_eq!(find(&hay, &chars("abcabcd"), 0), None);
    assert!(matches_at(&hay, &chars("cab"), 2));
    assert!(!matches_at(&hay, &chars("cab"), 1));
    assert!(starts_with(&hay, &chars("abc")));
    assert!(starts_with(&hay, &chars("")));
    assert!(!starts_with(&hay, &chars("bc")));
    assert!(!starts_with(&chars("a"), &chars("ab")));
}

#[test]
fn order_of_texts_is_the_order_of_strings() {
    let words = ["", "A", "B", "a", "ab", "b", "é", "\u{10000}"];
    for x in words {
        for y in words {
            assert_eq!(less(&chars(x), &chars(y)), x < y, "{:?} {:?}", x, y);
        }
    }
}

#[test]
fn joining_and_finding_strings() {
    let list = vec!["a".to_string(), "b".to_string(), "a".to_string()];
    assert_eq!(join_strings(&list, ", "), "a, b, a");
    assert_eq!(join_strings(&vec![], ", "), "");
    assert_eq!(join_strings(&vec!["x".to_string()], ", "), "x");
    assert_eq!(position_of_string(&list, "a"), Some(0));
    assert_eq!(position_of_string(&list, "b"), Some(1));
    assert_eq!(position_of_string(&list, "c"), None);
    assert!(contains_string(&list, "b"));
    assert!(!contains_string(&list, "ab"));
}

#[test]
fn map_keeps_insertion_order_and_updates_in_place() {
    let mut m = StrMap::new();
    assert!(m.is_empty());
    m.insert("b".to_string(), "1".to_string());
    m.insert("a".to_string(), "2".to_string());
    m.insert("b".to_string(), "3".to_string());
    assert_eq!(m.len(), 2);
    assert_eq!(m.key_at(0), "b");
    assert_eq!(m.value_at(0), "3");
    assert_eq!(m.key_at(1), "a");
    assert_eq!(m.get("a"), Some(&"2".to_string()));
    assert_eq!(m.get("c"), None);
    assert!(m.contains_key("b"));
    assert!(!m.contains_key("B"));
    assert_eq!(m.key_list(), vec!["b".to_string(), "a".to_string()]);

    let mut other = StrMap::new();
    other.insert("c".to_string(), "4".to_string());
    other.insert("a".to_string(), "5".to_string());
    m.extend(&other);
    assert_eq!(m.key_list(), vec!["b".to_string(), "a".to_string(), "c".to_string()]);
    assert_eq!(m.get("a"), Some(&"5".to_string()));
    assert_eq!(m.copy(), m);
    assert_eq!(m.clone(), m);
}

#[test]
fn error_messages() {
    let cases = vec![
        (
            GetapiError::ProviderNotFound("x".to_string()),
            "Provider 'x' not found. Run `getapi list` to see available providers.",
        ),
        (GetapiError::RecipeFileNotFound("r.json".to_string()), "Recipe file not found: r.json"),
        (GetapiError::InvalidRecipe("bad".to_string()), "Invalid recipe: bad"),
        (GetapiError::StepNotFound("s".to_string()), "Step 's' not found in recipe"),
        (
            GetapiError::TemplateVarNotFound("a, b".to_string()),
            "Template variable 'a, b' not set. This step depends on a previous choice or input.",
        ),
        (GetapiError::ValidationFailed("why".to_string()), "Validation failed: why"),
        (
            GetapiError::ValidatorNotFound("m".to_string(), "a, b".to_string()),
            "Validator 'm' not found. Available validators: a, b",
        ),
        (GetapiError::SessionError("e".to_string()), "Session error: e"),
        (GetapiError::UserCancelled, "User cancelled the operation."),
        (GetapiError::Io("e".to_string()), "IO error: e"),
        (GetapiError::Json("e".to_string()), "JSON error: e"),
        (GetapiError::Http("e".to_string()), "HTTP error: e"),
        (GetapiError::RemoteFetch("e".to_string()), "Failed to fetch remote recipes: e"),
    ];
    for (error, message) in cases {
        assert_eq!(error.message(), message);
        assert_eq!(error.copy(), error);
    }
}
