use whatsapp_export_viewer::classify::{find_attachment_exec, get_media_type_from_filename, is_system_message, strip_attachment_exec};
use whatsapp_export_viewer::text::{from_chars, to_chars};

#[test]
fn media_types_by_name() {
    assert_eq!(get_media_type_from_filename("00000012-PHOTO-2024.jpg"), "image");
    assert_eq!(get_media_type_from_filename("a.JPEG"), "image");
    assert_eq!(get_media_type_from_filename("a.Png"), "image");
    assert_eq!(get_media_type_from_filename("a.gif"), "image");
    assert_eq!(get_media_type_from_filename("VIDEO-1.bin"), "video");
    assert_eq!(get_media_type_from_filename("clip.MOV"), "video");
    assert_eq!(get_media_type_from_filename("x.mp4"), "video");
    assert_eq!(get_media_type_from_filename("STICKER-1.webp"), "sticker");
    assert_eq!(get_media_type_from_filename("a.webp"), "image");
    assert_eq!(get_media_type_from_filename("AUDIO-1.bin"), "audio");
    assert_eq!(get_media_type_from_filename("v.opus"), "audio");
    assert_eq!(get_media_type_from_filename("v.m4a"), "audio");
    assert_eq!(get_media_type_from_filename("DOCUMENT-x"), "document");
    assert_eq!(get_media_type_from_filename("r.DOCX"), "document");
    assert_eq!(get_media_type_from_filename("r.pdf"), "document");
    assert_eq!(get_media_type_from_filename("photo.txt"), "media");
    assert_eq!(get_media_type_from_filename(""), "media");
}

#[test]
fn media_type_matches_lowercase_suffix_rule() {
    let names = ["a.JpG", "b.GIF", "İ.gif", "x.gİf", "K.pdf", "\u{212a}.pdf", "y.Mp3", "z.oGg", "w.webP", "plain"];
    for name in names {
        let lower = name.to_lowercase();
        let expected = if name.contains("PHOTO") || [".jpg", ".jpeg", ".png", ".gif"].iter().any(|s| lower.ends_with(s)) {
            "image"
        } else if name.contains("VIDEO") || [".mp4", ".mov"].iter().any(|s| lower.ends_with(s)) {
            "video"
        } else if name.contains("STICKER") {
            "sticker"
        } else if name.contains("AUDIO") || [".mp3", ".m4a", ".ogg", ".opus"].iter().any(|s| lower.ends_with(s)) {
            "audio"
        } else if name.contains("DOCUMENT") || [".pdf", ".doc", ".docx"].iter().any(|s| lower.ends_with(s)) {
            "document"
        } else if lower.ends_with(".webp") {
            "image"
        } else {
            "media"
        };
        assert_eq!(get_media_type_from_filename(name), expected, "name {:?}", name);
    }
}

#[test]
fn system_message_phrases() {
    assert!(is_system_message("הקבוצה נוצרה על ידי דנה"));
    assert!(is_system_message("דנה הוסיף את אבי"));
    assert!(is_system_message("אבי עזב"));
    assert!(is_system_message(&"a".repeat(61)));
    assert!(!is_system_message(&"a".repeat(60)));
    assert!(!is_system_message("Dana"));
    assert!(!is_system_message(""));
}

fn attachment(t: &str) -> Option<String> {
    find_attachment_exec(&to_chars(t)).map(|v| from_chars(&v))
}

#[test]
fn attachment_markers() {
    assert_eq!(attachment("<attached: 0001-PHOTO.jpg>"), Some("0001-PHOTO.jpg".to_string()));
    assert_eq!(attachment("<attached:   spaced.jpg  >"), Some("spaced.jpg".to_string()));
    assert_eq!(attachment("<attached: no-close.jpg"), Some("no-close.jpg".to_string()));
    assert_eq!(attachment("<attached: >"), None);
    assert_eq!(attachment("<מצורף: קובץ.pdf>"), Some("קובץ.pdf".to_string()));
    assert_eq!(attachment("caption IMG-1.jpg (file attached)"), Some("IMG-1.jpg".to_string()));
    assert_eq!(attachment("IMG-2.jpg (קובץ מצורף)"), Some("IMG-2.jpg".to_string()));
    assert_eq!(attachment("IMG-3.jpg (\u{05e7}\u{05d5}\u{05d1}\u{05e6} \u{05de}\u{05e6}\u{05d5}\u{05e8}\u{05e3})"), Some("IMG-3.jpg".to_string()));
    assert_eq!(attachment("(file attached)"), None);
    assert_eq!(attachment("plain text"), None);
}

#[test]
fn attachment_text_cleanup() {
    let strip = |t: &str, f: &str| from_chars(&strip_attachment_exec(&to_chars(t), &to_chars(f)));
    assert_eq!(strip("<attached: a.jpg>", "a.jpg"), "");
    assert_eq!(strip("see a.jpg (file attached) now", "a.jpg"), "see  now");
    assert_eq!(strip("a.jpg (קובץ מצורף)", "a.jpg"), "");
    assert_eq!(strip("<מצורף: a.jpg", "a.jpg"), "");
    assert_eq!(strip(" x (file attached) (file attached) ", "a.jpg"), "x");
}

#[test]
fn extension_case_does_not_change_the_kind() {
    let pairs = [("clip.mp4", "CLIP.MP4"), ("a.jpeg", "A.JpEg"), ("n.Opus", "N.OPUS"), ("r.docx", "R.DocX"), ("x.bin", "X.BIN")];
    for (a, b) in pairs {
        assert_eq!(get_media_type_from_filename(a), get_media_type_from_filename(b));
    }
    assert_eq!(get_media_type_from_filename("CLIP.MP4"), "video");
}
