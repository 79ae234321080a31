use r34_hooks::persistence::{pg_write_for, Local, PgWrite, StoreError};

#[test]
fn empty_store_has_no_ids() {
    assert_eq!(Local::get_last_id(None, "kindred"), Ok(None));
}

#[test]
fn read_after_write() {
    let first = Local::set_last_id(None, "kindred", 7775085).unwrap();
    assert_eq!(Local::get_last_id(Some(&first), "kindred"), Ok(Some(7775085)));
    assert_eq!(Local::get_last_id(Some(&first), "other"), Ok(None));
    let second = Local::set_last_id(Some(&first), "other", 12).unwrap();
    assert_eq!(Local::get_last_id(Some(&second), "kindred"), Ok(Some(7775085)));
    assert_eq!(Local::get_last_id(Some(&second), "other"), Ok(Some(12)));
    let third = Local::set_last_id(Some(&second), "kindred", -3).unwrap();
    assert_eq!(Local::get_last_id(Some(&third), "kindred"), Ok(Some(-3)));
    assert_eq!(Local::get_last_id(Some(&third), "other"), Ok(Some(12)));
}

#[test]
fn reads_json_object() {
    let stored = br#"{"a": 5, "b": -1, "a": 6}"#;
    assert_eq!(Local::get_last_id(Some(stored), "a"), Ok(Some(6)));
    assert_eq!(Local::get_last_id(Some(stored), "b"), Ok(Some(-1)));
    assert_eq!(Local::get_last_id(Some(b"{}"), "a"), Ok(None));
}

#[test]
fn written_bytes_are_json() {
    let bytes = Local::set_last_id(Some(br#"{"x":1}"#), "y", 2).unwrap();
    let text = String::from_utf8(bytes).unwrap();
    assert_eq!(text, r#"{"x":1,"y":2}"#);
}

#[test]
fn unreadable_store() {
    assert_eq!(Local::get_last_id(Some(b"not json"), "a"), Err(StoreError::Unreadable));
    assert_eq!(Local::get_last_id(Some(br#"{"a": "x"}"#), "a"), Err(StoreError::Unreadable));
    assert_eq!(Local::set_last_id(Some(b"[1]"), "a", 1), Err(StoreError::Unreadable));
    assert_eq!(Local::get_last_id(Some(b""), "a"), Err(StoreError::Unreadable));
}

#[test]
fn store_path() {
    assert_eq!(Local::new("storage.json").path(), "storage.json");
}

#[test]
fn update_existing_row_else_insert() {
    assert_eq!(pg_write_for(true), PgWrite::Update);
    assert_eq!(pg_write_for(false), PgWrite::Insert);
}
