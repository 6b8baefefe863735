use fileporter::transfer::{plan_top_level_name, sanitize_windows_components, validate_receiver_components, TransferError};

#[test]
fn receiver_rejects_traversal_and_absolute_components() {
    for v in [vec!["..".to_string()], vec!["a/b".to_string()], vec!["C:".to_string()], vec!["\\\\server".to_string()]] {
        assert!(validate_receiver_components(&v).is_err());
    }
}

#[test]
fn windows_policy_sanitizes_reserved_and_collisions() {
    let (v, w) = sanitize_windows_components(&["CON".into(), "a<b.txt".into(), "A_B.txt".into()]).unwrap();
    assert!(v[0].starts_with("_CON~"));
    assert!(v[1].contains('~'));
    assert!(v[2].contains('~'));
    assert_eq!(w.len(), 3);
}

#[test]
fn top_level_numbering_never_reuses_name() {
    let occupied: Vec<String> = vec!["Report.pdf".into(), "Report (1).pdf".into()];
    assert_eq!(plan_top_level_name("Report.pdf", &occupied), "Report (2).pdf");
}

#[test]
fn free_names_are_kept_and_extensionless_names_are_numbered_at_the_end() {
    let occupied: Vec<String> = vec!["notes".into(), ".bashrc".into()];
    assert_eq!(plan_top_level_name("Report.pdf", &occupied), "Report.pdf");
    assert_eq!(plan_top_level_name("notes", &occupied), "notes (1)");
    assert_eq!(plan_top_level_name(".bashrc", &occupied), ".bashrc (1)");
    let tar: Vec<String> = vec!["a.tar.gz".into()];
    assert_eq!(plan_top_level_name("a.tar.gz", &tar), "a.tar (1).gz");
}

#[test]
fn valid_nested_paths_are_accepted() {
    assert_eq!(validate_receiver_components(&["a".to_string(), "b c".to_string(), "d.txt".to_string()]), Ok(()));
    assert_eq!(validate_receiver_components(&[]), Err(TransferError::InvalidPath));
    assert_eq!(validate_receiver_components(&["".to_string()]), Err(TransferError::InvalidPath));
    assert_eq!(validate_receiver_components(&[".".to_string()]), Err(TransferError::InvalidPath));
}

#[test]
fn plain_windows_names_are_left_alone() {
    let (v, w) = sanitize_windows_components(&["docs".into(), "report.txt".into()]).unwrap();
    assert_eq!(v, vec!["docs".to_string(), "report.txt".to_string()]);
    assert!(w.is_empty());
}
