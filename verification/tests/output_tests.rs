use getapi::cli::args::OutputFormat;
use getapi::output::env::{parse_line, read_existing};
use getapi::output::order::sorted_entries;
use getapi::output::{stdout, write_output, OutputPlan};
use getapi::strmap::StrMap;

fn map(entries: Vec<(&str, &str)>) -> StrMap {
    let mut m = StrMap::new();
    for (k, v) in entries {
        m.insert(k.to_string(), v.to_string());
    }
    m
}

#[test]
fn env_file_is_read_with_and_without_quotes() {
    let contents = "# a comment\n\nPLAIN=value\n  SPACED =  padded  \nQUOTED=\"two words\"\nSINGLE='x y'\nno equals sign\nEMPTY=\nWITH_EQ=a=b\r\nLAST=end";
    let m = read_existing(contents);
    assert_eq!(m.get("PLAIN"), Some(&"value".to_string()));
    assert_eq!(m.get("SPACED"), Some(&"padded".to_string()));
    assert_eq!(m.get("QUOTED"), Some(&"two words".to_string()));
    assert_eq!(m.get("SINGLE"), Some(&"x y".to_string()));
    assert_eq!(m.get("EMPTY"), Some(&"".to_string()));
    assert_eq!(m.get("WITH_EQ"), Some(&"a=b".to_string()));
    assert_eq!(m.get("LAST"), Some(&"end".to_string()));
    assert_eq!(m.len(), 7);
    assert!(!m.contains_key("# a comment"));
}

#[test]
fn env_file_later_line_wins() {
    let m = read_existing("A=1\nB=2\nA=3\n");
    assert_eq!(m.get("A"), Some(&"3".to_string()));
    assert_eq!(m.len(), 2);
    assert_eq!(m.key_list(), vec!["A".to_string(), "B".to_string()]);
}

#[test]
fn env_file_empty_and_lonely_quote() {
    assert!(read_existing("").is_empty());
    assert!(read_existing("\n\n  \n").is_empty());
    let m = read_existing("K=\"\nJ=\"\"\n");
    assert_eq!(m.get("K"), Some(&"\"".to_string()));
    assert_eq!(m.get("J"), Some(&"".to_string()));
}

#[test]
fn env_line_parsing() {
    let line: Vec<char> = "  KEY = \"v\"  ".chars().collect();
    assert_eq!(parse_line(&line), Some(("KEY".to_string(), "v".to_string())));
    let line: Vec<char> = "#KEY=v".chars().collect();
    assert_eq!(parse_line(&line), None);
    let line: Vec<char> = "\u{a0}\u{3000}".chars().collect();
    assert_eq!(parse_line(&line), None);
}

#[test]
fn env_write_merges_sorts_and_quotes() {
    let existing = "ZED=last\nKEEP=old\nOVER=old\n";
    let values = map(vec![
        ("OVER", "new"),
        ("ALPHA", "two words"),
        ("HASH", "a#b"),
        ("QUOTE", "say \"hi\""),
    ]);
    assert_eq!(
        getapi::output::env::write(existing, &values),
        "ALPHA=\"two words\"\nHASH=\"a#b\"\nKEEP=old\nOVER=new\nQUOTE=\"say \\\"hi\\\"\"\nZED=last\n"
    );
}

#[test]
fn env_write_of_nothing_is_empty() {
    assert_eq!(getapi::output::env::write("", &StrMap::new()), "");
}

#[test]
fn written_env_file_reads_back() {
    let values = map(vec![("B", "two words"), ("A", "plain")]);
    let contents = getapi::output::env::write("", &values);
    let back = read_existing(&contents);
    assert_eq!(back.get("A"), Some(&"plain".to_string()));
    assert_eq!(back.get("B"), Some(&"two words".to_string()));
    assert_eq!(back.len(), 2);
}

#[test]
fn entries_sort_by_code_point() {
    let m = map(vec![("b", "2"), ("B", "1"), ("a", "3"), ("ab", "4"), ("", "0"), ("é", "5")]);
    let keys: Vec<String> = sorted_entries(&m).into_iter().map(|e| e.0).collect();
    assert_eq!(keys, vec!["", "B", "a", "ab", "b", "é"]);
}

#[test]
fn stdout_lines_are_sorted() {
    let m = map(vec![("B", "2"), ("A", "1 1")]);
    assert_eq!(stdout::write(&m), vec!["A=1 1".to_string(), "B=2".to_string()]);
}

#[test]
fn output_plans() {
    let values = map(vec![("K", "v")]);
    assert_eq!(
        write_output(&OutputFormat::Env, ".env", "OLD=1\n", &values),
        Ok(OutputPlan::WriteFile {
            path: ".env".to_string(),
            contents: "K=v\nOLD=1\n".to_string()
        })
    );
    assert_eq!(
        write_output(&OutputFormat::Json, "c.json", "ignored", &values),
        Ok(OutputPlan::WriteFile {
            path: "c.json".to_string(),
            contents: "{\n  \"K\": \"v\"\n}".to_string()
        })
    );
    assert_eq!(
        write_output(&OutputFormat::Stdout, "", "", &values),
        Ok(OutputPlan::Print { lines: vec!["K=v".to_string()] })
    );
}

#[test]
fn json_object_is_pretty_and_sorted() {
    let values = map(vec![("B", "two \"words\""), ("A", "1")]);
    assert_eq!(
        getapi::output::json::write(&values),
        Ok("{\n  \"A\": \"1\",\n  \"B\": \"two \\\"words\\\"\"\n}".to_string())
    );
    assert_eq!(getapi::output::json::write(&StrMap::new()), Ok("{}".to_string()));
}

#[test]
fn written_values_are_found_whatever_the_file_held() {
    let existing = "ODD=say \"hi\" twice\n=no key\nKEEP='quoted'\nNEW=old\n";
    let values = map(vec![("NEW", "fresh value"), ("ZED", "z#1"), ("A", "")]);
    let contents = getapi::output::env::write(existing, &values);
    let back = read_existing(&contents);
    assert_eq!(back.get("NEW"), Some(&"fresh value".to_string()));
    assert_eq!(back.get("ZED"), Some(&"z#1".to_string()));
    assert_eq!(back.get("A"), Some(&"".to_string()));
    assert!(back.contains_key("ODD"));
    assert!(back.contains_key("KEEP"));
    assert!(back.contains_key(""));
    assert_eq!(back.len(), 6);
}
