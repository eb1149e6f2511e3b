use benchie::git::{current_branch, first_line, is_dirty, BranchEntry, StatusEntry};
use benchie::storage::SCHEMA_VERSION;
use benchie::Data;

#[test]
fn first_line_of_commit_message() {
    assert_eq!(first_line("update\n\nlonger text\n"), "update");
    assert_eq!(first_line("initial commit"), "initial commit");
    assert_eq!(first_line(""), "");
    assert_eq!(first_line("\nbody"), "");
}

#[test]
fn dirty_only_with_changes() {
    let clean = vec![StatusEntry { bits: 0x80, staged_path: false, unstaged_path: true }];
    assert!(!is_dirty(&clean));
    assert!(!is_dirty(&Vec::new()));
    let staged = vec![StatusEntry { bits: 0x1, staged_path: true, unstaged_path: false }];
    assert!(is_dirty(&staged));
    let modified = vec![
        StatusEntry { bits: 0x80, staged_path: false, unstaged_path: true },
        StatusEntry { bits: 0x100, staged_path: false, unstaged_path: true },
    ];
    assert!(is_dirty(&modified));
    let without_path = vec![StatusEntry { bits: 0x100, staged_path: false, unstaged_path: false }];
    assert!(!is_dirty(&without_path));
}

#[test]
fn branch_is_the_first_named_head() {
    let branches = vec![
        BranchEntry { name: Some("feature".to_string()), is_head: false },
        BranchEntry { name: None, is_head: true },
        BranchEntry { name: Some("main".to_string()), is_head: true },
    ];
    assert_eq!(current_branch(&branches), Some("main".to_string()));
    assert_eq!(current_branch(&branches[..1].iter().map(|b| BranchEntry { name: b.name.clone(), is_head: b.is_head }).collect()), None);
}

#[test]
fn record_starts_empty_and_grows() {
    let mut data: Data<u32> = Data::new();
    assert_eq!(data.schema, SCHEMA_VERSION);
    assert_eq!(data.schema, 1);
    assert!(data.benchmarks.is_empty());
    data.push(7);
    data.push(9);
    assert_eq!(data.benchmarks, vec![7, 9]);
}
