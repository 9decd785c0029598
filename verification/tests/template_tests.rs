use getapi::error::GetapiError;
use getapi::recipe::template::{expand, expand_lenient, expand_with};
use getapi::strmap::StrMap;

#[test]
fn test_expand_simple() {
    let mut vars = StrMap::new();
    vars.insert("name".to_string(), "world".to_string());
    assert_eq!(expand("Hello {{name}}!", &vars).unwrap(), "Hello world!");
}

#[test]
fn test_expand_multiple() {
    let mut vars = StrMap::new();
    vars.insert("a".to_string(), "1".to_string());
    vars.insert("b".to_string(), "2".to_string());
    assert_eq!(expand("{{a}} and {{b}}", &vars).unwrap(), "1 and 2");
}

#[test]
fn test_expand_missing() {
    let vars = StrMap::new();
    assert!(expand("{{missing}}", &vars).is_err());
}

#[test]
fn test_expand_no_vars() {
    let vars = StrMap::new();
    assert_eq!(expand("no vars here", &vars).unwrap(), "no vars here");
}

#[test]
fn expand_lists_each_missing_name_once_in_order_of_first_occurrence() {
    let mut vars = StrMap::new();
    vars.insert("known".to_string(), "v".to_string());
    let r = expand("{{zeta}} {{known}} {{alpha}} {{zeta}}", &vars);
    assert_eq!(r, Err(GetapiError::TemplateVarNotFound("zeta, alpha".to_string())));
}

#[test]
fn expand_lenient_renders_marker() {
    let vars = StrMap::new();
    assert_eq!(expand_lenient("{{x}}", &vars), "<x>");
    assert_eq!(expand_lenient("a {{x}} b", &vars), "a <x> b");
}

#[test]
fn expand_with_replaces_named_placeholders_only() {
    let mut vars = StrMap::new();
    vars.insert("a".to_string(), "1".to_string());
    let names = vec!["a".to_string()];
    assert_eq!(expand_with("{{a}}-{{b}}", &names, &vars).unwrap(), "1-{{b}}");
}

#[test]
fn expand_does_not_expand_values_again() {
    let mut vars = StrMap::new();
    vars.insert("a".to_string(), "{{b}}".to_string());
    vars.insert("b".to_string(), "x".to_string());
    assert_eq!(expand("{{a}} {{b}}", &vars).unwrap(), "{{b}} x");
}

#[test]
fn names_are_made_of_word_characters() {
    let mut vars = StrMap::new();
    vars.insert("na\u{ef}ve_1".to_string(), "ok".to_string());
    vars.insert("a".to_string(), "A".to_string());
    assert_eq!(expand("{{na\u{ef}ve_1}}", &vars).unwrap(), "ok");
    assert_eq!(expand("{{a-b}} {{ a }} {{}} {a}", &vars).unwrap(), "{{a-b}} {{ a }} {{}} {a}");
    assert_eq!(expand("{{{a}}}", &vars).unwrap(), "{A}");
    assert_eq!(expand("{{a}}{{a}}", &vars).unwrap(), "AA");
    assert_eq!(expand("", &vars).unwrap(), "");
}

#[test]
fn lenient_agrees_with_strict_where_strict_succeeds() {
    let mut vars = StrMap::new();
    vars.insert("a".to_string(), "1".to_string());
    vars.insert("b".to_string(), "2".to_string());
    for template in ["{{a}} and {{b}}", "no vars", "{{b}}{{a}}{{b}}", "x{{a}}"] {
        assert_eq!(expand_lenient(template, &vars), expand(template, &vars).unwrap());
    }
    assert_eq!(expand_lenient("{{a}} {{c}} {{a}}", &vars), "1 <c> 1");
}
