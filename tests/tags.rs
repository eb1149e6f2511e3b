use benchie::{is_key_value_pair, parse_key_value_pair, parse_tags_from_stdout, ExecutionError};

fn keys(err: ExecutionError) -> Vec<String> {
    match err {
        ExecutionError::DuplicateTagKey(keys) => keys,
        other => panic!("expected a duplicate key error, got {:?}", other),
    }
}

#[test]
fn tag_line_round_trip() {
    let out = parse_tags_from_stdout("@benchie key=value\n").expect("one tag");
    assert_eq!(out.tags.len(), 1);
    assert_eq!(out.tags.get("key").map(|v| v.as_str()), Some("value"));
    assert!(out.warnings.is_empty());
}

#[test]
fn tag_line_among_ordinary_output() {
    let text = "starting\n@benchie size=large\nworking\n@benchie mode=fast\ndone";
    let out = parse_tags_from_stdout(text).expect("two tags");
    assert_eq!(out.tags.len(), 2);
    assert_eq!(out.tags.get("size").map(|v| v.as_str()), Some("large"));
    assert_eq!(out.tags.get("mode").map(|v| v.as_str()), Some("fast"));
    assert!(out.tags.contains_key("mode"));
    assert!(!out.tags.contains_key("starting"));
    let entries: Vec<(String, String)> = out.tags.entries().clone();
    assert_eq!(
        entries,
        vec![
            ("size".to_string(), "large".to_string()),
            ("mode".to_string(), "fast".to_string())
        ]
    );
}

#[test]
fn last_line_without_newline_is_read() {
    let out = parse_tags_from_stdout("@benchie a=1").expect("one tag");
    assert_eq!(out.tags.get("a").map(|v| v.as_str()), Some("1"));
}

#[test]
fn parsing_twice_gives_the_same_map() {
    let text = "x\n@benchie k=v\n@benchie bad\n@benchie z=9\n";
    let first = parse_tags_from_stdout(text).expect("tags");
    let second = parse_tags_from_stdout(text).expect("tags");
    assert_eq!(first.tags.entries(), second.tags.entries());
    assert_eq!(first.warnings, second.warnings);
}

#[test]
fn duplicate_key_is_refused() {
    let err = parse_tags_from_stdout("@benchie a=1\n@benchie a=2\n").err().expect("duplicate");
    assert_eq!(keys(err), vec!["a".to_string()]);
}

#[test]
fn duplicate_keys_are_each_named_once() {
    let text = "@benchie a=1\n@benchie b=1\n@benchie a=2\n@benchie a=3\n@benchie b=2\n@benchie c=1\n";
    let err = parse_tags_from_stdout(text).err().expect("duplicates");
    assert_eq!(keys(err), vec!["a".to_string(), "b".to_string()]);
}

#[test]
fn malformed_line_is_a_warning() {
    let out = parse_tags_from_stdout("@benchie not-a-pair\n").expect("no error");
    assert!(out.tags.is_empty());
    assert_eq!(out.warnings, vec!["not-a-pair".to_string()]);
}

#[test]
fn malformed_lines_keep_the_well_formed_ones() {
    let text = "@benchie =v\n@benchie k=\n@benchie a=b=c\n@benchie good=yes\n";
    let out = parse_tags_from_stdout(text).expect("no error");
    assert_eq!(out.tags.len(), 1);
    assert_eq!(out.tags.get("good").map(|v| v.as_str()), Some("yes"));
    assert_eq!(
        out.warnings,
        vec!["=v".to_string(), "k=".to_string(), "a=b=c".to_string()]
    );
}

#[test]
fn lines_without_the_prefix_are_ignored() {
    let text = "@benchie\n@benchiekey=value\n benchie a=b\nkey=value\n";
    let out = parse_tags_from_stdout(text).expect("no error");
    assert!(out.tags.is_empty());
    assert!(out.warnings.is_empty());
}

#[test]
fn empty_output_has_no_tags() {
    let out = parse_tags_from_stdout("").expect("no error");
    assert!(out.tags.is_empty());
    assert_eq!(out.tags.len(), 0);
    assert!(out.warnings.is_empty());
}

#[test]
fn key_value_shape_is_checked() {
    assert!(is_key_value_pair("key=value").is_ok());
    assert!(is_key_value_pair("k=v").is_ok());
    assert_eq!(
        is_key_value_pair("key"),
        Err("tag has to be a <key>=<value> pair".to_string())
    );
    assert!(is_key_value_pair("=value").is_err());
    assert!(is_key_value_pair("key=").is_err());
    assert!(is_key_value_pair("a=b=c").is_err());
    assert!(is_key_value_pair("").is_err());
}

#[test]
fn key_value_pair_is_split() {
    assert_eq!(
        parse_key_value_pair("key=value"),
        ("key".to_string(), "value".to_string())
    );
    assert_eq!(
        parse_key_value_pair("größe=groß"),
        ("größe".to_string(), "groß".to_string())
    );
}

#[test]
fn keys_given_twice_are_found() {
    let out = parse_tags_from_stdout("@benchie mode=fast\n@benchie size=9\n").expect("tags");
    let given = vec!["size".to_string(), "user".to_string(), "mode".to_string()];
    assert_eq!(
        out.tags.shared_keys(&given),
        vec!["size".to_string(), "mode".to_string()]
    );
    assert!(out.tags.shared_keys(&Vec::new()).is_empty());
}
