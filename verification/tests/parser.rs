use whatsapp_export_viewer::classify::MessageKind;
use whatsapp_export_viewer::error::ImportError;
use whatsapp_export_viewer::media::MediaIndex;
use whatsapp_export_viewer::parser::{parse_chat, resolve_attachment, ChatParser, LineEffect, ParsedMessage};
use whatsapp_export_viewer::text::to_chars;

fn lines(text: &[&str]) -> Vec<String> {
    text.iter().map(|l| l.to_string()).collect()
}

fn parse(text: &[&str], media: MediaIndex) -> Vec<ParsedMessage> {
    parse_chat(&lines(text), media).unwrap()
}

fn is_uuid_text(id: &str) -> bool {
    id.len() == 36
        && id.chars().enumerate().all(|(i, c)| match i {
            8 | 13 | 18 | 23 => c == '-',
            14 => c == '4',
            19 => matches!(c, '8' | '9' | 'a' | 'b'),
            _ => c.is_ascii_hexdigit() && !c.is_ascii_uppercase(),
        })
}

#[test]
fn ios_export_with_sender() {
    let msgs = parse(&["[12/03/2024, 09:30:15] Dana: hello there"], MediaIndex::new());
    assert_eq!(msgs.len(), 1);
    let m = &msgs[0];
    assert_eq!(m.timestamp, "12/03/2024, 09:30:15");
    assert_eq!(m.sender, "Dana");
    assert_eq!(m.text, "hello there");
    assert_eq!(m.kind, MessageKind::Text);
    assert_eq!(m.msg_type(), "text");
    assert!(!m.system);
    assert!(!m.deleted);
    assert!(is_uuid_text(&m.id));
}

#[test]
fn android_export_with_sender() {
    let msgs = parse(&["12/03/2024, 21:05 - ~ Yossi: שלום"], MediaIndex::new());
    assert_eq!(msgs.len(), 1);
    assert_eq!(msgs[0].timestamp, "12/03/2024, 21:05");
    assert_eq!(msgs[0].sender, "Yossi");
    assert_eq!(msgs[0].text, "שלום");
}

#[test]
fn multiline_messages_are_joined() {
    let msgs = parse(
        &[
            "before any message",
            "[1/2/24, 10:00] Dana: first line",
            "second line",
            "",
            "   ",
            "  third line  ",
            "[1/2/24, 10:01] Avi: next",
        ],
        MediaIndex::new(),
    );
    assert_eq!(msgs.len(), 2);
    assert_eq!(msgs[0].text, "first line\nsecond line\n  third line  ");
    assert_eq!(msgs[1].text, "next");
}

#[test]
fn system_notices() {
    let msgs = parse(
        &[
            "1/2/24, 10:00 - ההודעות והשיחות מוצפנות מקצה לקצה",
            "1/2/24, 10:01 - דנה הצטרף: באמצעות קישור",
            "1/2/24, 10:02 - no colon here",
        ],
        MediaIndex::new(),
    );
    assert_eq!(msgs.len(), 3);
    for m in &msgs {
        assert!(m.system);
        assert_eq!(m.sender, "מערכת");
        assert_eq!(m.kind, MessageKind::System);
        assert_eq!(m.msg_type(), "system");
    }
    assert_eq!(msgs[1].text, "דנה הצטרף: באמצעות קישור");
}

#[test]
fn long_sender_is_a_system_notice() {
    let long = "x".repeat(61);
    let line = format!("1/2/24, 10:00 - {}: text", long);
    let msgs = parse(&[line.as_str()], MediaIndex::new());
    assert!(msgs[0].system);
    let ok = "y".repeat(60);
    let line = format!("1/2/24, 10:00 - {}: text", ok);
    let msgs = parse(&[line.as_str()], MediaIndex::new());
    assert!(!msgs[0].system);
    assert_eq!(msgs[0].sender, ok);
}

#[test]
fn deleted_and_edited_messages() {
    let msgs = parse(
        &[
            "[1/2/24, 10:00] Dana: ההודעה נמחקה",
            "[1/2/24, 10:01] Dana: fixed typo <ההודעה נערכה>",
            "[1/2/24, 10:02] Dana: <Media omitted>",
            "[1/2/24, 10:03] Dana: הקובץ הושמט",
        ],
        MediaIndex::new(),
    );
    assert_eq!(msgs[0].kind, MessageKind::Deleted);
    assert!(msgs[0].deleted);
    assert_eq!(msgs[1].kind, MessageKind::Text);
    assert_eq!(msgs[1].text, "fixed typo");
    assert_eq!(msgs[2].kind, MessageKind::MediaOmitted);
    assert_eq!(msgs[2].msg_type(), "media_omitted");
    assert_eq!(msgs[3].kind, MessageKind::MediaOmitted);
}

#[test]
fn ios_attachment_found() {
    let mut media = MediaIndex::new();
    media.insert_first("00000012-PHOTO-2024-03-12.jpg", "/data/imports/x/00000012-PHOTO-2024-03-12.jpg".to_string());
    let msgs = parse(&["[12/03/2024, 09:30] Dana: <attached: 00000012-PHOTO-2024-03-12.jpg>"], media);
    let m = &msgs[0];
    assert_eq!(m.kind, MessageKind::Image);
    assert_eq!(m.media_filename.as_deref(), Some("00000012-PHOTO-2024-03-12.jpg"));
    assert_eq!(m.media_path.as_deref(), Some("/data/imports/x/00000012-PHOTO-2024-03-12.jpg"));
    assert_eq!(m.text, "");
}

#[test]
fn hebrew_ios_attachment_found() {
    let mut media = MediaIndex::new();
    media.insert_first("voice.opus", "/m/voice.opus".to_string());
    let msgs = parse(&["[12/03/2024, 09:30] Dana: <מצורף: voice.opus>"], media);
    assert_eq!(msgs[0].kind, MessageKind::Audio);
    assert_eq!(msgs[0].media_path.as_deref(), Some("/m/voice.opus"));
    assert_eq!(msgs[0].text, "");
}

#[test]
fn android_attachment_with_caption() {
    let mut media = MediaIndex::new();
    media.insert_first("IMG-20240312-WA0001.jpg", "/m/IMG-20240312-WA0001.jpg".to_string());
    media.insert_first("DOC.pdf", "/m/DOC.pdf".to_string());
    let msgs = parse(
        &[
            "12/03/2024, 21:05 - Dana: IMG-20240312-WA0001.jpg (file attached)",
            "look at this",
            "12/03/2024, 21:06 - Dana: DOC.pdf (קובץ מצורף)",
        ],
        media,
    );
    assert_eq!(msgs[0].kind, MessageKind::Image);
    assert_eq!(msgs[0].text, "\nlook at this");
    assert_eq!(msgs[1].kind, MessageKind::Document);
    assert_eq!(msgs[1].media_path.as_deref(), Some("/m/DOC.pdf"));
}

#[test]
fn missing_attachment_is_media_omitted() {
    let msgs = parse(&["[12/03/2024, 09:30] Dana: <attached: gone.mp4>"], MediaIndex::new());
    assert_eq!(msgs[0].kind, MessageKind::MediaOmitted);
    assert_eq!(msgs[0].media_filename.as_deref(), Some("gone.mp4"));
    assert_eq!(msgs[0].media_path, None);
}

#[test]
fn attachment_in_a_folder_is_found_by_file_name() {
    let mut media = MediaIndex::new();
    media.insert_first("clip.mov", "/m/clip.mov".to_string());
    let msgs = parse(&["[12/03/2024, 09:30] Dana: <attached: sub/clip.mov>"], media);
    assert_eq!(msgs[0].kind, MessageKind::Video);
    assert_eq!(msgs[0].media_filename.as_deref(), Some("sub/clip.mov"));
}

#[test]
fn attachment_without_file_name_is_refused() {
    let r = parse_chat(&lines(&["[12/03/2024, 09:30] Dana: <attached: ..>"]), MediaIndex::new());
    assert_eq!(r.err(), Some(ImportError::InvalidMediaFilename));
}

#[test]
fn parser_keeps_state_on_error() {
    let mut p = ChatParser::new(MediaIndex::new());
    p.push_line("[1/2/24, 10:00] Dana: hi").unwrap();
    assert_eq!(p.push_line("[1/2/24, 10:01] Dana: <attached: ..>"), Err(ImportError::InvalidMediaFilename));
    assert_eq!(p.message_count(), 1);
    p.push_line("more").unwrap();
    assert_eq!(p.messages()[0].text, "hi\nmore");
}

#[test]
fn format_characters_and_carriage_returns_are_ignored() {
    let msgs = parse(&["\u{200f}[1/2/24, 10:00] Dana:\u{200e} hi\r", "\u{feff}\u{2066}"], MediaIndex::new());
    assert_eq!(msgs.len(), 1);
    assert_eq!(msgs[0].text, "hi");
}

#[test]
fn one_message_per_header_line() {
    let text = [
        "[1/2/24, 10:00] A: one",
        "cont",
        "1/2/24, 10:01 - B: two",
        "[1/2/24, 10:02] three",
        "",
        "1/2/24, 10:03 - four",
    ];
    assert_eq!(parse(&text, MediaIndex::new()).len(), 4);
}

#[test]
fn empty_export_has_no_messages() {
    assert_eq!(parse(&[], MediaIndex::new()).len(), 0);
    assert_eq!(parse(&["no header", ""], MediaIndex::new()).len(), 0);
}

#[test]
fn large_export_parses_quickly() {
    let mut text: Vec<String> = Vec::new();
    for i in 0..20_000 {
        text.push(format!("[1/2/24, 10:{:02}:00] Dana: message number {}", i % 60, i));
        if i % 3 == 0 {
            text.push("a continuation line".to_string());
        }
    }
    let msgs = parse_chat(&text, MediaIndex::new()).unwrap();
    assert_eq!(msgs.len(), 20_000);
    assert_eq!(msgs[0].text, "message number 0\na continuation line");
}

#[test]
fn line_effects() {
    let mut p = ChatParser::new(MediaIndex::new());
    assert_eq!(p.push_line("preamble"), Ok(LineEffect::Ignored));
    assert_eq!(p.push_line("1/2/24, 10:00 - Dana: hi"), Ok(LineEffect::Started));
    assert_eq!(p.push_line("  "), Ok(LineEffect::Ignored));
    assert_eq!(p.push_line("\u{200f}"), Ok(LineEffect::Ignored));
    assert_eq!(p.push_line("more"), Ok(LineEffect::Continued));
    assert_eq!(p.message_count(), 1);
    assert_eq!(p.messages()[0].text, "hi\nmore");
}

#[test]
fn every_message_is_well_formed() {
    let mut media = MediaIndex::new();
    media.insert_first("a.jpg", "/m/a.jpg".to_string());
    let msgs = parse(
        &[
            "[1/2/24, 10:00] Dana: <attached: a.jpg>",
            "[1/2/24, 10:01] Dana: <attached: b.jpg>",
            "[1/2/24, 10:02] Dana: ההודעה הזאת נמחקה",
            "[1/2/24, 10:03] הקבוצה נוצרה",
            "[1/2/24, 10:04] ~\u{a0}Avi Cohen: hi: there",
            "١٢/٣/٢٤, ٩:٣٠ - Noa: שלום",
        ],
        media,
    );
    assert_eq!(msgs.len(), 6);
    for m in &msgs {
        assert_eq!(m.system, m.kind == MessageKind::System);
        assert_eq!(m.deleted, m.kind == MessageKind::Deleted);
        if m.system {
            assert_eq!(m.sender, "מערכת");
            assert!(m.media_filename.is_none());
        } else {
            assert!(!m.sender.contains(':'));
        }
        let attachment_kind = matches!(
            m.kind,
            MessageKind::Image | MessageKind::Video | MessageKind::Sticker | MessageKind::Audio | MessageKind::Document | MessageKind::Media
        );
        assert_eq!(m.media_path.is_some(), attachment_kind);
    }
    assert_eq!(msgs[1].kind, MessageKind::MediaOmitted);
    assert_eq!(msgs[4].sender, "Avi Cohen");
    assert_eq!(msgs[4].text, "hi: there");
    assert_eq!(msgs[5].timestamp, "١٢/٣/٢٤, ٩:٣٠");
    assert_eq!(msgs[5].sender, "Noa");
}

#[test]
fn resolve_attachment_by_file_name() {
    let mut media = MediaIndex::new();
    media.insert_first("IMG-1.jpg", "/m/IMG-1.jpg".to_string());
    let f = to_chars("sub/IMG-1.jpg");
    assert_eq!(
        resolve_attachment(&f, Some("IMG-1.jpg".to_string()), &media),
        Ok((MessageKind::Image, Some("/m/IMG-1.jpg".to_string())))
    );
    assert_eq!(
        resolve_attachment(&f, Some("other.jpg".to_string()), &media),
        Ok((MessageKind::MediaOmitted, None))
    );
    assert_eq!(resolve_attachment(&f, None, &media), Err(ImportError::InvalidMediaFilename));
}

#[test]
fn plain_attachment_name_is_looked_up_as_written() {
    let mut media = MediaIndex::new();
    media.insert_first("voice.OPUS", "/m/voice.OPUS".to_string());
    media.insert_first("voice.opus", "/m/other.opus".to_string());
    let msgs = parse(&["[12/03/2024, 09:30] Dana: <attached: voice.OPUS>"], media);
    assert_eq!(msgs[0].kind, MessageKind::Audio);
    assert_eq!(msgs[0].media_path.as_deref(), Some("/m/voice.OPUS"));
}
