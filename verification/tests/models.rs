use whatsapp_export_viewer::models::ChatStats;

#[test]
fn stats_from_type_counts() {
    let rows = vec![
        ("text".to_string(), 10),
        ("image".to_string(), 4),
        ("video".to_string(), 3),
        ("audio".to_string(), 2),
        ("document".to_string(), 1),
        ("sticker".to_string(), 5),
        ("system".to_string(), 7),
        ("media_omitted".to_string(), 6),
    ];
    let s = ChatStats::from_type_counts(&rows).unwrap();
    assert_eq!(s.total, 38);
    assert_eq!(s.images, 4);
    assert_eq!(s.videos, 3);
    assert_eq!(s.audios, 2);
    assert_eq!(s.documents, 1);
    assert_eq!(s.stickers, 5);
    assert_eq!(s.deleted, 0);
    let empty = ChatStats::from_type_counts(&vec![]).unwrap();
    assert_eq!(empty.total, 0);
    assert_eq!(empty.images, 0);
}

#[test]
fn stats_overflow_is_refused() {
    let rows = vec![("image".to_string(), i64::MAX), ("text".to_string(), 1)];
    assert!(ChatStats::from_type_counts(&rows).is_none());
    let rows = vec![("image".to_string(), i64::MAX), ("text".to_string(), -1), ("text".to_string(), 1)];
    assert!(ChatStats::from_type_counts(&rows).is_some());
    let rows = vec![("video".to_string(), i64::MIN), ("video".to_string(), -1)];
    assert!(ChatStats::from_type_counts(&rows).is_none());
}

#[test]
fn media_counts_stay_within_the_total() {
    let rows = vec![
        ("image".to_string(), 3),
        ("text".to_string(), 9),
        ("sticker".to_string(), 2),
        ("deleted".to_string(), 4),
        ("document".to_string(), 0),
    ];
    let s = ChatStats::from_type_counts(&rows).unwrap();
    assert_eq!(s.total, 18);
    assert!(s.images >= 0 && s.videos >= 0 && s.audios >= 0 && s.documents >= 0 && s.stickers >= 0);
    assert_eq!(s.images + s.videos + s.audios + s.documents + s.stickers, 5);
    assert!(s.images + s.videos + s.audios + s.documents + s.stickers <= s.total);
}
