use benchie::show::{
    apply_filter, benchmark_to_row, compute_2d_table_data, compute_table_data_1d,
    display_example_values, join_values,
};

fn pairs(items: &[(&str, &str)]) -> Vec<(String, String)> {
    items
        .iter()
        .map(|(k, v)| (k.to_string(), v.to_string()))
        .collect()
}

fn texts(items: &[&str]) -> Vec<String> {
    items.iter().map(|s| s.to_string()).collect()
}

#[test]
fn remove_benchmark_with_missing_key_in_filter() {
    let benchmark: Vec<(String, String)> = Vec::new();

    assert!(
        !apply_filter(&benchmark, &pairs(&[("key", "value")])),
        "if one key value pair is missing, the benchmark should get filtered out"
    );
}

#[test]
fn remove_benchmark_with_wrong_value_in_filter() {
    let benchmark = pairs(&[("key", "value")]);

    let filter = pairs(&[("key", "value2")]);
    assert!(
        !apply_filter(&benchmark, &filter),
        "benchmark should get filtered out if the value of a filter doesn't match the value in a benchmark"
    );
}

#[test]
fn benchmark_should_not_get_filtered_out_if_all_filters_do_match() {
    let filter = pairs(&[("key", "value"), ("key2", "value2")]);

    let benchmark = filter.clone();

    assert!(
        apply_filter(&benchmark, &filter),
        "benchmark should pass the filter if all key value pairs match the filter"
    );
}

#[test]
fn empty_filter_passes_everything() {
    assert!(apply_filter(&Vec::new(), &Vec::new()));
    assert!(apply_filter(&pairs(&[("a", "1")]), &Vec::new()));
}

#[test]
fn row_needs_both_keys() {
    let b = pairs(&[("command", "ls"), ("real_time", "1.2s"), ("user", "x")]);
    assert_eq!(
        benchmark_to_row("command", "real_time", &b),
        Some(("ls".to_string(), "1.2s".to_string()))
    );
    assert_eq!(benchmark_to_row("command", "missing", &b), None);
}

#[test]
fn one_dimensional_table_is_sorted_and_counts_misses() {
    let benchmarks = vec![
        pairs(&[("cmd", "zeta"), ("t", "3"), ("os", "linux")]),
        pairs(&[("cmd", "alpha"), ("t", "1"), ("os", "linux")]),
        pairs(&[("cmd", "beta"), ("os", "linux")]),
        pairs(&[("cmd", "Gamma"), ("t", "2"), ("os", "macos")]),
        pairs(&[("cmd", "mid"), ("t", "5"), ("os", "linux")]),
    ];
    let data = compute_table_data_1d(&benchmarks, "cmd", "t", &pairs(&[("os", "linux")]));
    assert_eq!(
        data.rows,
        pairs(&[("alpha", "1"), ("mid", "5"), ("zeta", "3")])
    );
    assert_eq!(data.empty_matches, 2);

    let all = compute_table_data_1d(&benchmarks, "cmd", "t", &Vec::new());
    assert_eq!(
        all.rows,
        pairs(&[("Gamma", "2"), ("alpha", "1"), ("mid", "5"), ("zeta", "3")])
    );
    assert_eq!(all.empty_matches, 1);
}

#[test]
fn two_dimensional_table_groups_metrics() {
    let benchmarks = vec![
        pairs(&[("cmd", "sort"), ("size", "small"), ("t", "1")]),
        pairs(&[("cmd", "grep"), ("size", "large"), ("t", "7")]),
        pairs(&[("cmd", "sort"), ("size", "large"), ("t", "9")]),
        pairs(&[("cmd", "sort"), ("size", "small"), ("t", "2")]),
        pairs(&[("cmd", "cat"), ("t", "4")]),
    ];
    let data = compute_2d_table_data(&benchmarks, "cmd", "size", "t", &Vec::new());
    assert_eq!(data.headers, texts(&["", "small", "large"]));
    assert_eq!(
        data.rows,
        vec![texts(&["grep", "", "7"]), texts(&["sort", "{1, 2}", "9"])]
    );
}

#[test]
fn two_dimensional_table_of_nothing() {
    let data = compute_2d_table_data(&Vec::new(), "cmd", "size", "t", &Vec::new());
    assert_eq!(data.headers, texts(&[""]));
    assert!(data.rows.is_empty());
}

#[test]
fn example_values_show_at_most_three() {
    assert_eq!(display_example_values(&Vec::new()), "");
    assert_eq!(display_example_values(&texts(&["a"])), "a");
    assert_eq!(display_example_values(&texts(&["a", "b"])), "a, b");
    assert_eq!(display_example_values(&texts(&["a", "b", "c"])), "a, b, c,...");
    assert_eq!(display_example_values(&texts(&["a", "b", "c", "d"])), "a, b, c,...");
}

#[test]
fn cell_values_are_braced_when_several() {
    assert_eq!(join_values(&Vec::new()), "");
    assert_eq!(join_values(&texts(&["1s"])), "1s");
    assert_eq!(join_values(&texts(&["1s", "2s", "3s"])), "{1s, 2s, 3s}");
}

#[test]
fn command_words_are_joined_by_spaces() {
    assert_eq!(benchie::show::display_command(&texts(&["ls", "-la", "/tmp"])), "ls -la /tmp");
    assert_eq!(benchie::show::display_command(&texts(&["true"])), "true");
    assert_eq!(benchie::show::display_command(&Vec::new()), "");
}
