use whatsapp_export_viewer::archive::{
    chat_name_for, chat_name_from, check_archive_len, is_chat_text_entry, is_ignored_entry, select_chat_file, ChatFileCandidate,
    ExtractionBudget, ImportCleanup, MAX_ARCHIVE_FILES, MAX_EXTRACTED_BYTES,
};
use whatsapp_export_viewer::error::ImportError;

#[test]
fn archive_entry_limit() {
    assert_eq!(check_archive_len(0), Ok(()));
    assert_eq!(check_archive_len(MAX_ARCHIVE_FILES), Ok(()));
    assert_eq!(check_archive_len(MAX_ARCHIVE_FILES + 1), Err(ImportError::TooManyFiles));
    assert_eq!(MAX_ARCHIVE_FILES, 50_000);
}

#[test]
fn extraction_budget() {
    assert_eq!(MAX_EXTRACTED_BYTES, 20 * 1024 * 1024 * 1024);
    let mut b = ExtractionBudget::new();
    assert_eq!(b.extracted(), 0);
    assert_eq!(b.add(100), Ok(()));
    assert_eq!(b.add(MAX_EXTRACTED_BYTES - 100), Ok(()));
    assert_eq!(b.extracted(), MAX_EXTRACTED_BYTES);
    assert_eq!(b.add(1), Err(ImportError::ExtractedSizeLimit));
    assert_eq!(b.extracted(), MAX_EXTRACTED_BYTES);
    assert_eq!(b.add(u64::MAX), Err(ImportError::ExtractedSizeOverflow));
    assert_eq!(b.add(0), Ok(()));
    let mut c = ExtractionBudget::new();
    assert_eq!(c.add(u64::MAX), Err(ImportError::ExtractedSizeLimit));
}

#[test]
fn ignored_entries() {
    assert!(is_ignored_entry(Some("__MACOSX"), Some("._photo.jpg")));
    assert!(is_ignored_entry(Some("chat"), Some(".DS_Store")));
    assert!(!is_ignored_entry(Some("__MACOSX2"), Some("a.jpg")));
    assert!(!is_ignored_entry(None, None));
    assert!(!is_ignored_entry(Some("a"), Some(".ds_store")));
}

#[test]
fn chat_text_entries() {
    assert!(is_chat_text_entry("_chat.txt"));
    assert!(is_chat_text_entry("WhatsApp Chat with Dana.TXT"));
    assert!(!is_chat_text_entry("notes.txt.bak"));
    assert!(!is_chat_text_entry("txt"));
}

fn candidate(stem: &str, size: u64) -> ChatFileCandidate {
    ChatFileCandidate { path: format!("/x/{}.txt", stem), stem: stem.to_string(), size }
}

#[test]
fn chat_file_choice() {
    assert_eq!(select_chat_file(&vec![]), Err(ImportError::NoChatFile));
    let c = vec![candidate("notes", 5000), candidate("_chat", 10), candidate("other", 1)];
    assert_eq!(select_chat_file(&c), Ok(1));
    let c = vec![candidate("WhatsApp Chat - Family", 10), candidate("whatsapp chat with Dana", 20), candidate("big", 99999)];
    assert_eq!(select_chat_file(&c), Ok(1));
    let c = vec![candidate("a", 7), candidate("b", 7)];
    assert_eq!(select_chat_file(&c), Ok(1));
    let c = vec![candidate("a", 8), candidate("b", 7)];
    assert_eq!(select_chat_file(&c), Ok(0));
    let c = vec![candidate("_CHAT", 1), candidate("_chat", 1)];
    assert_eq!(select_chat_file(&c), Ok(1));
}

#[test]
fn chat_file_choice_matches_max_by_key() {
    let stems = ["_chat", "x", "WhatsApp Chat with A", "y", "_Chat"];
    let sizes = [3u64, 9, 3, 9, 1];
    for n in 1..=stems.len() {
        let c: Vec<ChatFileCandidate> = (0..n).map(|i| candidate(stems[i], sizes[i])).collect();
        let expected = c
            .iter()
            .enumerate()
            .max_by_key(|(_, cand)| {
                let lower = cand.stem.to_lowercase();
                (lower == "_chat" || lower.starts_with("whatsapp chat"), cand.size)
            })
            .map(|(i, _)| i);
        assert_eq!(select_chat_file(&c).ok(), expected);
    }
}

#[test]
fn chat_names() {
    assert_eq!(chat_name_for("WhatsApp Chat with Dana", "/tmp/export.zip"), "Dana");
    assert_eq!(chat_name_for("_chat", "/tmp/Family Group.zip"), "Family Group");
    assert_eq!(chat_name_for("_CHAT", "/tmp/Family.zip"), "Family");
    assert_eq!(chat_name_for("", "/tmp/a.b.zip"), "a.b");
    assert_eq!(chat_name_for("_chat", ""), "שיחת WhatsApp");
    assert_eq!(chat_name_for("_chat", "/"), "שיחת WhatsApp");
    assert_eq!(chat_name_for("whatsapp chat with Dana", "/tmp/x.zip"), "whatsapp chat with Dana");
    assert_eq!(chat_name_for("Notes", "/tmp/x.zip"), "Notes");
}

#[test]
fn cleanup_is_removed_unless_kept() {
    let mut c = ImportCleanup::new("/data/imports/abc".to_string());
    assert!(c.should_remove());
    assert_eq!(c.path(), "/data/imports/abc");
    c.keep();
    assert!(!c.should_remove());
    assert_eq!(c.path(), "/data/imports/abc");
}

#[test]
fn chat_name_from_archive_stem() {
    assert_eq!(chat_name_from("WhatsApp Chat with Noa", Some("x".to_string())), "Noa");
    assert_eq!(chat_name_from("_chat", Some("Family".to_string())), "Family");
    assert_eq!(chat_name_from("", Some("Trip".to_string())), "Trip");
    assert_eq!(chat_name_from("_chat", None), "שיחת WhatsApp");
    assert_eq!(chat_name_from("Notes", None), "Notes");
}

#[test]
fn archive_stems_follow_the_file_stem_rule() {
    assert_eq!(chat_name_for("_chat", "/tmp/.hidden"), ".hidden");
    assert_eq!(chat_name_for("_chat", "/tmp/a.b.c"), "a.b");
    assert_eq!(chat_name_for("_chat", "/tmp/a."), "a");
    assert_eq!(chat_name_for("_chat", "/tmp/..x"), ".");
    assert_eq!(chat_name_for("_chat", "plain"), "plain");
    assert_eq!(chat_name_for("_chat", "/tmp/.."), "שיחת WhatsApp");
}
