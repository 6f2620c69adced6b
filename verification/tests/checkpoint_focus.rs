use crushr::json::JsonValue;
use crushr::lab::row_groups::count_zero_field_rows;

fn row(manifest: Option<u64>) -> JsonValue {
    match manifest {
        Some(n) => JsonValue::Object(vec![("manifest_checkpoint_survival_count".to_string(), JsonValue::Number(Some(n)))]),
        None => JsonValue::Object(vec![]),
    }
}

#[test]
fn rows_without_surviving_checkpoints_are_counted() {
    let rows = vec![row(Some(0)), row(Some(3)), row(None), row(Some(1))];
    assert_eq!(count_zero_field_rows(&rows, "manifest_checkpoint_survival_count"), 2);
    assert_eq!(count_zero_field_rows(&rows, "path_checkpoint_survival_count"), 4);
    assert_eq!(count_zero_field_rows(&[], "manifest_checkpoint_survival_count"), 0);
}
