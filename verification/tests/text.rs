use whatsapp_export_viewer::media::MediaIndex;
use whatsapp_export_viewer::text::{
    ends_with_ignore_ascii_case_exec, find_exec, from_chars, is_decimal_digit_char, is_white_space_char,
    last_word_exec, remove_all_exec, to_chars, trim_exec,
};

#[test]
fn white_space_agrees_with_std() {
    for u in 0u32..0x3100 {
        if let Some(c) = char::from_u32(u) {
            assert_eq!(is_white_space_char(c), c.is_whitespace(), "U+{:04X}", u);
        }
    }
}

#[test]
fn decimal_digits() {
    for c in ['0', '9', '٣', '۹', '०', '０', '𝟎', '𝟿'] {
        assert!(is_decimal_digit_char(c), "{:?}", c);
    }
    for c in ['a', '/', '²', '½', 'Ⅻ', ' '] {
        assert!(!is_decimal_digit_char(c), "{:?}", c);
    }
}

fn s(v: Vec<char>) -> String {
    from_chars(&v)
}

#[test]
fn trim_replace_find_like_std() {
    let samples = ["", "  ", " a b ", "\u{3000}x\u{2009}", "abcabc", "aaa", "x\ny"];
    for t in samples {
        assert_eq!(s(trim_exec(&to_chars(t))), t.trim());
        for p in ["a", "aa", "bc", "x", "\n"] {
            assert_eq!(s(remove_all_exec(&to_chars(t), &to_chars(p))), t.replace(p, ""));
            let byte_pos = t.find(p).map(|b| t[..b].chars().count());
            assert_eq!(find_exec(&to_chars(t), &to_chars(p)), byte_pos);
        }
        assert_eq!(s(last_word_exec(&to_chars(t))), t.split_whitespace().last().unwrap_or(""));
    }
}

#[test]
fn case_insensitive_suffix() {
    assert!(ends_with_ignore_ascii_case_exec(&to_chars("A.TXT"), &to_chars(".txt")));
    assert!(!ends_with_ignore_ascii_case_exec(&to_chars("txt"), &to_chars(".txt")));
}

#[test]
fn media_index_first_name_wins() {
    let mut m = MediaIndex::new();
    m.insert_first("a.jpg", "/one/a.jpg".to_string());
    m.insert_first("a.jpg", "/two/a.jpg".to_string());
    m.insert_first("b.jpg", "/one/b.jpg".to_string());
    assert_eq!(m.len(), 2);
    assert_eq!(m.get(&to_chars("a.jpg")), Some("/one/a.jpg".to_string()));
    assert_eq!(m.get(&to_chars("b.jpg")), Some("/one/b.jpg".to_string()));
    assert_eq!(m.get(&to_chars("c.jpg")), None);
}

#[test]
fn media_index_scales_to_the_archive_limit() {
    let mut m = MediaIndex::new();
    for i in 0..50_000u32 {
        let name = format!("IMG-20240312-WA{:05}.jpg", i);
        m.insert_first(&name, format!("/m/{}", name));
    }
    assert_eq!(m.len(), 50_000);
    assert_eq!(m.get(&to_chars("IMG-20240312-WA49999.jpg")), Some("/m/IMG-20240312-WA49999.jpg".to_string()));
    assert_eq!(m.get(&to_chars("IMG-20240312-WA50000.jpg")), None);
}
