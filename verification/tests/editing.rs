use whatsapp_export_viewer::editing::{delete_message_effect, edit_message_effect, restore_message_effect, StoredMessage};

fn imported(text: &str) -> StoredMessage {
    StoredMessage {
        msg_type: "text".to_string(),
        text: Some(text.to_string()),
        original_text: Some(text.to_string()),
        edited: false,
        deleted: false,
    }
}

fn imported_deleted(text: &str) -> StoredMessage {
    StoredMessage {
        msg_type: "deleted".to_string(),
        text: Some(text.to_string()),
        original_text: Some(text.to_string()),
        edited: false,
        deleted: true,
    }
}

fn same(a: &StoredMessage, b: &StoredMessage) -> bool {
    a.msg_type == b.msg_type
        && a.text == b.text
        && a.original_text == b.original_text
        && a.edited == b.edited
        && a.deleted == b.deleted
}

#[test]
fn edit_records_old_text() {
    let (next, record) = edit_message_effect(Some(imported("hello")), "bye".to_string());
    let next = next.unwrap();
    assert_eq!(record.old_text, "hello");
    assert_eq!(record.new_text, "bye");
    assert_eq!(next.text.as_deref(), Some("bye"));
    assert_eq!(next.original_text.as_deref(), Some("hello"));
    assert!(next.edited);
    assert!(!next.deleted);
}

#[test]
fn edit_of_missing_message_logs_empty_old_text() {
    let (next, record) = edit_message_effect(None, "x".to_string());
    assert!(next.is_none());
    assert_eq!(record.old_text, "");
    assert_eq!(record.new_text, "x");
    let m = StoredMessage {
        msg_type: "text".to_string(),
        text: None,
        original_text: Some("o".to_string()),
        edited: false,
        deleted: false,
    };
    let (_, record) = edit_message_effect(Some(m), "y".to_string());
    assert_eq!(record.old_text, "");
}

#[test]
fn delete_keeps_texts() {
    let (next, kept) = delete_message_effect(Some(imported("hello")));
    let next = next.unwrap();
    assert_eq!(kept, "hello");
    assert!(next.deleted);
    assert_eq!(next.text.as_deref(), Some("hello"));
    let (none, kept) = delete_message_effect(None);
    assert!(none.is_none());
    assert_eq!(kept, "");
}

#[test]
fn restore_undoes_edits_and_deletes() {
    let start = imported("original");
    let (m, _) = edit_message_effect(Some(imported("original")), "one".to_string());
    let (m, _) = edit_message_effect(m, "two".to_string());
    let (m, _) = delete_message_effect(m);
    let (m, _) = edit_message_effect(m, "three".to_string());
    let restored = restore_message_effect(m).unwrap();
    assert!(same(&restored, &start));
    let again = restore_message_effect(Some(restored)).unwrap();
    assert!(same(&again, &start));
    assert!(restore_message_effect(None).is_none());
}

#[test]
fn restore_keeps_a_deletion_made_in_the_export() {
    let start = imported_deleted("ההודעה נמחקה");
    let restored = restore_message_effect(Some(imported_deleted("ההודעה נמחקה"))).unwrap();
    assert!(same(&restored, &start));
    assert!(restored.deleted);
    let (m, _) = edit_message_effect(Some(imported_deleted("ההודעה נמחקה")), "x".to_string());
    let (m, _) = delete_message_effect(m);
    let restored = restore_message_effect(m).unwrap();
    assert!(same(&restored, &start));
    assert_eq!(restored.msg_type, "deleted");
}
