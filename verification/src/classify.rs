//! What a message line says: system notices, media kinds, attachment names
//! and the markers that exports put into message text.
use vstd::prelude::*;
use crate::text::{
    contains, contains_exec, count_char, ends_with_ignore_ascii_case,
    ends_with_ignore_ascii_case_exec, eq_ignore_ascii_case, find, find_char, find_char_exec,
    find_exec, find_from, is_blank, is_white_space, last_word, last_word_exec, lemma_count_absent,
    lemma_count_concat, lemma_count_present, lemma_ends_last_two,
    lemma_ends_with_ignore_case_congruent, lemma_find_by_first_char, lemma_find_char_sound,
    lemma_find_first, lemma_find_from_sound, lemma_last_word_plain, lemma_remove_all_absent_by_count,
    lemma_remove_all_longer, lemma_remove_all_same_len, lemma_remove_all_trailing,
    lemma_remove_all_whole, lemma_trim_empty, lemma_trim_plain, lemma_trim_start_concat,
    lemma_trim_start_last, lemma_trim_white, lemma_word_start_after, occurs_at, remove_all,
    remove_all_exec, slice_chars, to_chars, trim, trim_end, trim_start, trim_exec, word_start,
};

verus! {

/// The kind of a message, stored as its label.
#[derive(Clone, Copy, Debug, PartialEq, Eq, Structural)]
pub enum MessageKind {
    System,
    Text,
    Deleted,
    MediaOmitted,
    Image,
    Video,
    Sticker,
    Audio,
    Document,
    Media,
}

impl MessageKind {
    /// The label under which a message of this kind is stored.
    pub open spec fn label(self) -> Seq<char> {
        match self {
            MessageKind::System => "system"@,
            MessageKind::Text => "text"@,
            MessageKind::Deleted => "deleted"@,
            MessageKind::MediaOmitted => "media_omitted"@,
            MessageKind::Image => "image"@,
            MessageKind::Video => "video"@,
            MessageKind::Sticker => "sticker"@,
            MessageKind::Audio => "audio"@,
            MessageKind::Document => "document"@,
            MessageKind::Media => "media"@,
        }
    }

    /// A kind that `get_media_type_from_filename` can give.
    pub open spec fn is_attachment_kind(self) -> bool {
        match self {
            MessageKind::Image | MessageKind::Video | MessageKind::Sticker | MessageKind::Audio
            | MessageKind::Document | MessageKind::Media => true,
            _ => false,
        }
    }

    /// The label under which a message of this kind is stored.
    pub fn label_string(&self) -> (s: String)
        ensures
            s@ == self.label(),
    {
        match self {
            MessageKind::System => "system".to_owned(),
            MessageKind::Text => "text".to_owned(),
            MessageKind::Deleted => "deleted".to_owned(),
            MessageKind::MediaOmitted => "media_omitted".to_owned(),
            MessageKind::Image => "image".to_owned(),
            MessageKind::Video => "video".to_owned(),
            MessageKind::Sticker => "sticker".to_owned(),
            MessageKind::Audio => "audio".to_owned(),
            MessageKind::Document => "document".to_owned(),
            MessageKind::Media => "media".to_owned(),
        }
    }
}

fn contains_str(s: &Vec<char>, p: &str) -> (b: bool)
    ensures
        b == contains(s@, p@),
{
    let pc = to_chars(p);
    contains_exec(s, &pc)
}

fn ends_with_str(s: &Vec<char>, p: &str) -> (b: bool)
    ensures
        b == ends_with_ignore_ascii_case(s@, p@),
{
    let pc = to_chars(p);
    ends_with_ignore_ascii_case_exec(s, &pc)
}

/// The media kind that an attachment's file name announces. Upper-case
/// markers are matched exactly, extensions without regard to ASCII case.
pub open spec fn media_kind(f: Seq<char>) -> MessageKind {
    if contains(f, "PHOTO"@) || ends_with_ignore_ascii_case(f, ".jpg"@) || ends_with_ignore_ascii_case(
        f,
        ".jpeg"@,
    ) || ends_with_ignore_ascii_case(f, ".png"@) || ends_with_ignore_ascii_case(f, ".gif"@) {
        MessageKind::Image
    } else if contains(f, "VIDEO"@) || ends_with_ignore_ascii_case(f, ".mp4"@)
        || ends_with_ignore_ascii_case(f, ".mov"@) {
        MessageKind::Video
    } else if contains(f, "STICKER"@) {
        MessageKind::Sticker
    } else if contains(f, "AUDIO"@) || ends_with_ignore_ascii_case(f, ".mp3"@)
        || ends_with_ignore_ascii_case(f, ".m4a"@) || ends_with_ignore_ascii_case(f, ".ogg"@)
        || ends_with_ignore_ascii_case(f, ".opus"@) {
        MessageKind::Audio
    } else if contains(f, "DOCUMENT"@) || ends_with_ignore_ascii_case(f, ".pdf"@)
        || ends_with_ignore_ascii_case(f, ".doc"@) || ends_with_ignore_ascii_case(f, ".docx"@) {
        MessageKind::Document
    } else if ends_with_ignore_ascii_case(f, ".webp"@) {
        MessageKind::Image
    } else {
        MessageKind::Media
    }
}

/// The media kind of an attachment file name.
pub fn media_kind_exec(f: &Vec<char>) -> (k: MessageKind)
    ensures
        k == media_kind(f@),
{
    if contains_str(f, "PHOTO") || ends_with_str(f, ".jpg") || ends_with_str(f, ".jpeg")
        || ends_with_str(f, ".png") || ends_with_str(f, ".gif") {
        MessageKind::Image
    } else if contains_str(f, "VIDEO") || ends_with_str(f, ".mp4") || ends_with_str(f, ".mov") {
        MessageKind::Video
    } else if contains_str(f, "STICKER") {
        MessageKind::Sticker
    } else if contains_str(f, "AUDIO") || ends_with_str(f, ".mp3") || ends_with_str(f, ".m4a")
        || ends_with_str(f, ".ogg") || ends_with_str(f, ".opus") {
        MessageKind::Audio
    } else if contains_str(f, "DOCUMENT") || ends_with_str(f, ".pdf") || ends_with_str(f, ".doc")
        || ends_with_str(f, ".docx") {
        MessageKind::Document
    } else if ends_with_str(f, ".webp") {
        MessageKind::Image
    } else {
        MessageKind::Media
    }
}

/// The name holds one of the upper-case markers `PHOTO`, `VIDEO`, `STICKER`,
/// `AUDIO` or `DOCUMENT`, which are matched exactly.
pub open spec fn holds_kind_marker(f: Seq<char>) -> bool {
    contains(f, "PHOTO"@) || contains(f, "VIDEO"@) || contains(f, "STICKER"@) || contains(
        f,
        "AUDIO"@,
    ) || contains(f, "DOCUMENT"@)
}

/// Extensions are matched without regard to case: two attachment names that
/// differ only in the ASCII case of their letters, and hold none of the
/// upper-case markers, announce the same media kind.
pub proof fn law_media_kind_ignores_extension_case(a: Seq<char>, b: Seq<char>)
    requires
        eq_ignore_ascii_case(a, b),
        !holds_kind_marker(a),
        !holds_kind_marker(b),
    ensures
        media_kind(a) == media_kind(b),
{
    lemma_ends_with_ignore_case_congruent(a, b, ".jpg"@);
    lemma_ends_with_ignore_case_congruent(a, b, ".jpeg"@);
    lemma_ends_with_ignore_case_congruent(a, b, ".png"@);
    lemma_ends_with_ignore_case_congruent(a, b, ".gif"@);
    lemma_ends_with_ignore_case_congruent(a, b, ".mp4"@);
    lemma_ends_with_ignore_case_congruent(a, b, ".mov"@);
    lemma_ends_with_ignore_case_congruent(a, b, ".mp3"@);
    lemma_ends_with_ignore_case_congruent(a, b, ".m4a"@);
    lemma_ends_with_ignore_case_congruent(a, b, ".ogg"@);
    lemma_ends_with_ignore_case_congruent(a, b, ".opus"@);
    lemma_ends_with_ignore_case_congruent(a, b, ".pdf"@);
    lemma_ends_with_ignore_case_congruent(a, b, ".doc"@);
    lemma_ends_with_ignore_case_congruent(a, b, ".docx"@);
    lemma_ends_with_ignore_case_congruent(a, b, ".webp"@);
}

/// The media type label of an attachment file name: `image`, `video`,
/// `sticker`, `audio`, `document` or `media`.
pub fn get_media_type_from_filename(filename: &str) -> (r: String)
    ensures
        r@ == media_kind(filename@).label(),
{
    let f = to_chars(filename);
    media_kind_exec(&f).label_string()
}

/// A sender candidate that is really a system notice: longer than sixty
/// characters, or holding a phrase of the group notices (group created,
/// joined, left, added, removed, changed, the end-to-end encryption notice).
pub open spec fn is_system_sender(s: Seq<char>) -> bool {
    s.len() > 60 || contains(s, "הקבוצה נוצרה"@) || contains(s, "הצטרף"@) || contains(s, "עזב"@)
        || contains(s, "הוסיף"@) || contains(s, "הסיר"@) || contains(s, "שינ"@) || contains(
        s,
        "הודעות ושיחות"@,
    ) || contains(s, "מוצפנות"@)
}

/// Whether a sender candidate is a system notice rather than a person.
pub fn is_system_message(sender_candidate: &str) -> (r: bool)
    ensures
        r == is_system_sender(sender_candidate@),
{
    let s = to_chars(sender_candidate);
    if s.len() > 60 {
        return true;
    }
    contains_str(&s, "הקבוצה נוצרה") || contains_str(&s, "הצטרף") || contains_str(&s, "עזב")
        || contains_str(&s, "הוסיף") || contains_str(&s, "הסיר") || contains_str(&s, "שינ")
        || contains_str(&s, "הודעות ושיחות") || contains_str(&s, "מוצפנות")
}

/// The marker an export leaves in an edited message.
pub open spec fn edit_marker() -> Seq<char> {
    "<\u{05d4}\u{05d4}\u{05d5}\u{05d3}\u{05e2}\u{05d4} \u{05e0}\u{05e2}\u{05e8}\u{05db}\u{05d4}>"@
}

/// The export says the message was deleted.
pub open spec fn says_deleted(t: Seq<char>) -> bool {
    contains(t, "\u{05d4}\u{05d4}\u{05d5}\u{05d3}\u{05e2}\u{05d4} \u{05e0}\u{05de}\u{05d7}\u{05e7}\u{05d4}"@)
        || contains(
        t,
        "\u{05d4}\u{05d5}\u{05d3}\u{05e2}\u{05d4} \u{05d6}\u{05d5} \u{05e0}\u{05de}\u{05d7}\u{05e7}\u{05d4}"@,
    ) || contains(
        t,
        "\u{05d4}\u{05d4}\u{05d5}\u{05d3}\u{05e2}\u{05d4} \u{05d4}\u{05d6}\u{05d0}\u{05ea} \u{05e0}\u{05de}\u{05d7}\u{05e7}\u{05d4}"@,
    )
}

/// The export says the attachment was left out.
pub open spec fn says_media_omitted(t: Seq<char>) -> bool {
    contains(t, "<Media omitted>"@) || contains(t, "<המדיה לא נכללה>"@) || contains(
        t,
        "התמונה הושמטה"@,
    ) || contains(t, "הסרטון הושמט"@) || contains(t, "הקובץ הושמט"@)
}

/// The message text with the edit marker removed and white space trimmed.
pub fn strip_edit_marker(t: &Vec<char>) -> (r: Vec<char>)
    ensures
        r@ == trim(remove_all(t@, edit_marker())),
{
    let m = to_chars(
        "<\u{05d4}\u{05d4}\u{05d5}\u{05d3}\u{05e2}\u{05d4} \u{05e0}\u{05e2}\u{05e8}\u{05db}\u{05d4}>",
    );
    let r = remove_all_exec(t, &m);
    trim_exec(&r)
}

/// Whether the export says the message was deleted.
pub fn says_deleted_exec(t: &Vec<char>) -> (r: bool)
    ensures
        r == says_deleted(t@),
{
    contains_str(t, "\u{05d4}\u{05d4}\u{05d5}\u{05d3}\u{05e2}\u{05d4} \u{05e0}\u{05de}\u{05d7}\u{05e7}\u{05d4}")
        || contains_str(
        t,
        "\u{05d4}\u{05d5}\u{05d3}\u{05e2}\u{05d4} \u{05d6}\u{05d5} \u{05e0}\u{05de}\u{05d7}\u{05e7}\u{05d4}",
    ) || contains_str(
        t,
        "\u{05d4}\u{05d4}\u{05d5}\u{05d3}\u{05e2}\u{05d4} \u{05d4}\u{05d6}\u{05d0}\u{05ea} \u{05e0}\u{05de}\u{05d7}\u{05e7}\u{05d4}",
    )
}

/// Whether the export says the attachment was left out.
pub fn says_media_omitted_exec(t: &Vec<char>) -> (r: bool)
    ensures
        r == says_media_omitted(t@),
{
    contains_str(t, "<Media omitted>") || contains_str(t, "<המדיה לא נכללה>") || contains_str(
        t,
        "התמונה הושמטה",
    ) || contains_str(t, "הסרטון הושמט") || contains_str(t, "הקובץ הושמט")
}

/// iOS attachment marker, English.
pub open spec fn attached_marker() -> Seq<char> {
    "<attached: "@
}

/// iOS attachment marker, Hebrew.
pub open spec fn hebrew_attached_marker() -> Seq<char> {
    "<\u{05de}\u{05e6}\u{05d5}\u{05e8}\u{05e3}: "@
}

/// Android attachment suffix, Hebrew, as the exports spell it with a medial
/// tsadi.
pub open spec fn hebrew_suffix_medial() -> Seq<char> {
    "(\u{05e7}\u{05d5}\u{05d1}\u{05e6} \u{05de}\u{05e6}\u{05d5}\u{05e8}\u{05e3})"@
}

/// Android attachment suffix, English.
pub open spec fn english_suffix() -> Seq<char> {
    "(file attached)"@
}

/// Android attachment suffix, Hebrew, with a final tsadi.
pub open spec fn hebrew_suffix_final() -> Seq<char> {
    "(קובץ מצורף)"@
}

/// The file name after an iOS marker: up to the next `>` (or the end),
/// trimmed; `None` when the marker is absent or the name is empty.
pub open spec fn name_after_marker(t: Seq<char>, marker: Seq<char>) -> Option<Seq<char>> {
    match find(t, marker) {
        Some(start) => {
            let after = t.subrange(start + marker.len(), t.len() as int);
            let end = match find_char(after, '>') {
                Some(e) => e,
                None => after.len() as int,
            };
            let name = trim(after.subrange(0, end));
            if name.len() > 0 {
                Some(name)
            } else {
                None
            }
        },
        None => None,
    }
}

/// The file name before an Android suffix: the last word before it;
/// `None` when the suffix is absent or no word precedes it.
pub open spec fn name_before_suffix(t: Seq<char>, suffix: Seq<char>) -> Option<Seq<char>> {
    match find(t, suffix) {
        Some(pos) => {
            let name = trim(last_word(trim(t.subrange(0, pos))));
            if name.len() > 0 {
                Some(name)
            } else {
                None
            }
        },
        None => None,
    }
}

/// The attachment file name that a message text announces, trying the iOS
/// markers and then the Android suffixes.
pub open spec fn find_attachment(t: Seq<char>) -> Option<Seq<char>> {
    if name_after_marker(t, attached_marker()) is Some {
        name_after_marker(t, attached_marker())
    } else if name_after_marker(t, hebrew_attached_marker()) is Some {
        name_after_marker(t, hebrew_attached_marker())
    } else if name_before_suffix(t, hebrew_suffix_medial()) is Some {
        name_before_suffix(t, hebrew_suffix_medial())
    } else if name_before_suffix(t, english_suffix()) is Some {
        name_before_suffix(t, english_suffix())
    } else {
        name_before_suffix(t, hebrew_suffix_final())
    }
}

fn name_after_marker_exec(t: &Vec<char>, marker: &Vec<char>) -> (r: Option<Vec<char>>)
    ensures
        match r {
            Some(n) => name_after_marker(t@, marker@) == Some(n@),
            None => name_after_marker(t@, marker@) is None,
        },
{
    proof {
        lemma_find_from_sound(t@, marker@, 0);
    }
    match find_exec(t, marker) {
        Some(start) => {
            assert(find_from(t@, marker@, 0) == Some(start as int));
            assert(occurs_at(t@, marker@, start as int));
            let tlen = t.len();
            let after = slice_chars(t, start + marker.len(), tlen);
            proof {
                lemma_find_char_sound(after@, '>');
            }
            let end = match find_char_exec(&after, '>') {
                Some(e) => e,
                None => after.len(),
            };
            let piece = slice_chars(&after, 0, end);
            let name = trim_exec(&piece);
            if name.len() > 0 {
                Some(name)
            } else {
                None
            }
        },
        None => None,
    }
}

fn name_before_suffix_exec(t: &Vec<char>, suffix: &Vec<char>) -> (r: Option<Vec<char>>)
    ensures
        match r {
            Some(n) => name_before_suffix(t@, suffix@) == Some(n@),
            None => name_before_suffix(t@, suffix@) is None,
        },
{
    proof {
        lemma_find_from_sound(t@, suffix@, 0);
    }
    match find_exec(t, suffix) {
        Some(pos) => {
            assert(find_from(t@, suffix@, 0) == Some(pos as int));
            assert(occurs_at(t@, suffix@, pos as int));
            let before = slice_chars(t, 0, pos);
            let before = trim_exec(&before);
            let word = last_word_exec(&before);
            let name = trim_exec(&word);
            if name.len() > 0 {
                Some(name)
            } else {
                None
            }
        },
        None => None,
    }
}

/// The attachment file name that a message text announces.
pub fn find_attachment_exec(t: &Vec<char>) -> (r: Option<Vec<char>>)
    ensures
        match r {
            Some(n) => find_attachment(t@) == Some(n@),
            None => find_attachment(t@) is None,
        },
{
    let m1 = to_chars("<attached: ");
    if let Some(n) = name_after_marker_exec(t, &m1) {
        return Some(n);
    }
    let m2 = to_chars("<\u{05de}\u{05e6}\u{05d5}\u{05e8}\u{05e3}: ");
    if let Some(n) = name_after_marker_exec(t, &m2) {
        return Some(n);
    }
    let s1 = to_chars("(\u{05e7}\u{05d5}\u{05d1}\u{05e6} \u{05de}\u{05e6}\u{05d5}\u{05e8}\u{05e3})");
    if let Some(n) = name_before_suffix_exec(t, &s1) {
        return Some(n);
    }
    let s2 = to_chars("(file attached)");
    if let Some(n) = name_before_suffix_exec(t, &s2) {
        return Some(n);
    }
    let s3 = to_chars("(קובץ מצורף)");
    name_before_suffix_exec(t, &s3)
}

/// The message text once the attachment `f` and the attachment markers are
/// taken out of it, trimmed.
pub open spec fn strip_attachment(t: Seq<char>, f: Seq<char>) -> Seq<char> {
    let t1 = remove_all(t, attached_marker() + f + ">"@);
    let t2 = remove_all(t1, hebrew_attached_marker() + f + ">"@);
    let t3 = remove_all(t2, hebrew_attached_marker() + f);
    let t4 = remove_all(t3, f + " (קובץ מצורף)"@);
    let t5 = remove_all(
        t4,
        f + " (\u{05e7}\u{05d5}\u{05d1}\u{05e6} \u{05de}\u{05e6}\u{05d5}\u{05e8}\u{05e3})"@,
    );
    let t6 = remove_all(t5, f + " (file attached)"@);
    let t7 = remove_all(t6, hebrew_suffix_final());
    let t8 = remove_all(t7, hebrew_suffix_medial());
    let t9 = remove_all(t8, english_suffix());
    trim(t9)
}

fn append_chars(v: &mut Vec<char>, w: &Vec<char>)
    ensures
        final(v)@ == old(v)@ + w@,
{
    let ghost v0 = v@;
    let mut i: usize = 0;
    while i < w.len()
        invariant
            i <= w.len(),
            v@ == v0 + w@.take(i as int),
        decreases w.len() - i,
    {
        v.push(w[i]);
        i += 1;
        assert(v@ =~= v0 + w@.take(i as int));
    }
    assert(w@.take(i as int) =~= w@);
}

fn wrapped(a: &str, f: &Vec<char>, b: &str) -> (r: Vec<char>)
    ensures
        r@ == a@ + f@ + b@,
{
    let mut r = to_chars(a);
    append_chars(&mut r, f);
    append_chars(&mut r, &to_chars(b));
    r
}

fn prefixed(a: &str, f: &Vec<char>) -> (r: Vec<char>)
    ensures
        r@ == a@ + f@,
{
    let mut r = to_chars(a);
    append_chars(&mut r, f);
    r
}

fn suffixed(f: &Vec<char>, b: &str) -> (r: Vec<char>)
    ensures
        r@ == f@ + b@,
{
    let mut r = f.clone();
    append_chars(&mut r, &to_chars(b));
    r
}

/// The message text once the attachment `f` and its markers are taken out.
pub fn strip_attachment_exec(t: &Vec<char>, f: &Vec<char>) -> (r: Vec<char>)
    ensures
        r@ == strip_attachment(t@, f@),
{
    let t1 = remove_all_exec(t, &wrapped("<attached: ", f, ">"));
    let t2 = remove_all_exec(&t1, &wrapped("<\u{05de}\u{05e6}\u{05d5}\u{05e8}\u{05e3}: ", f, ">"));
    let t3 = remove_all_exec(&t2, &prefixed("<\u{05de}\u{05e6}\u{05d5}\u{05e8}\u{05e3}: ", f));
    let t4 = remove_all_exec(&t3, &suffixed(f, " (קובץ מצורף)"));
    let t5 = remove_all_exec(
        &t4,
        &suffixed(f, " (\u{05e7}\u{05d5}\u{05d1}\u{05e6} \u{05de}\u{05e6}\u{05d5}\u{05e8}\u{05e3})"),
    );
    let t6 = remove_all_exec(&t5, &suffixed(f, " (file attached)"));
    let t7 = remove_all_exec(&t6, &to_chars("(קובץ מצורף)"));
    let t8 = remove_all_exec(
        &t7,
        &to_chars("(\u{05e7}\u{05d5}\u{05d1}\u{05e6} \u{05de}\u{05e6}\u{05d5}\u{05e8}\u{05e3})"),
    );
    let t9 = remove_all_exec(&t8, &to_chars("(file attached)"));
    trim_exec(&t9)
}

proof fn lemma_remove_all_of_empty()
    ensures
        forall|q: Seq<char>| #[trigger]
            remove_all(Seq::<char>::empty(), q) == Seq::<char>::empty(),
{
    assert forall|q: Seq<char>| #[trigger]
        remove_all(Seq::<char>::empty(), q) == Seq::<char>::empty() by {
        lemma_remove_all_whole(q, q);
    }
}

proof fn lemma_count3(a: Seq<char>, f: Seq<char>, b: Seq<char>, c: char)
    ensures
        count_char(a + f + b, c) == count_char(a, c) + count_char(f, c) + count_char(b, c),
        count_char(a + f, c) == count_char(a, c) + count_char(f, c),
        count_char(f + b, c) == count_char(f, c) + count_char(b, c),
{
    lemma_count_concat(a, f, c);
    lemma_count_concat(a + f, b, c);
    lemma_count_concat(f, b, c);
}

/// Facts on the literals of the attachment forms.
proof fn lemma_attachment_literals()
    ensures
        count_char("<attached: "@, '<') >= 1,
        count_char("<\u{05de}\u{05e6}\u{05d5}\u{05e8}\u{05e3}: "@, '<') >= 1,
        count_char(">"@, '<') == 0,
        count_char(" (קובץ מצורף)"@, '<') == 0,
        count_char(" (\u{05e7}\u{05d5}\u{05d1}\u{05e6} \u{05de}\u{05e6}\u{05d5}\u{05e8}\u{05e3})"@, '<')
            == 0,
        count_char(" (file attached)"@, '<') == 0,
        count_char(" (קובץ מצורף)"@, 'ק') >= 1,
        count_char(" (\u{05e7}\u{05d5}\u{05d1}\u{05e6} \u{05de}\u{05e6}\u{05d5}\u{05e8}\u{05e3})"@, 'ק')
            >= 1,
        count_char(" (file attached)"@, 'ק') == 0,
        " (קובץ מצורף)"@.len() == 13,
        " (\u{05e7}\u{05d5}\u{05d1}\u{05e6} \u{05de}\u{05e6}\u{05d5}\u{05e8}\u{05e3})"@.len() == 13,
        " (קובץ מצורף)"@[5] != " (\u{05e7}\u{05d5}\u{05d1}\u{05e6} \u{05de}\u{05e6}\u{05d5}\u{05e8}\u{05e3})"@[5],
        " (file attached)"@.len() == 16,
        "<attached: "@.len() == 11,
        "<\u{05de}\u{05e6}\u{05d5}\u{05e8}\u{05e3}: "@.len() == 8,
        ">"@.len() == 1,
{
    reveal_strlit("<attached: ");
    reveal_strlit("<\u{05de}\u{05e6}\u{05d5}\u{05e8}\u{05e3}: ");
    reveal_strlit(">");
    reveal_strlit(" (קובץ מצורף)");
    reveal_strlit(" (\u{05e7}\u{05d5}\u{05d1}\u{05e6} \u{05de}\u{05e6}\u{05d5}\u{05e8}\u{05e3})");
    reveal_strlit(" (file attached)");
    lemma_count_present("<attached: "@, 0, '<');
    lemma_count_present("<\u{05de}\u{05e6}\u{05d5}\u{05e8}\u{05e3}: "@, 0, '<');
    lemma_count_absent(">"@, '<');
    lemma_count_absent(" (קובץ מצורף)"@, '<');
    lemma_count_absent(" (\u{05e7}\u{05d5}\u{05d1}\u{05e6} \u{05de}\u{05e6}\u{05d5}\u{05e8}\u{05e3})"@, '<');
    lemma_count_absent(" (file attached)"@, '<');
    lemma_count_present(" (קובץ מצורף)"@, 2, 'ק');
    lemma_count_present(" (\u{05e7}\u{05d5}\u{05d1}\u{05e6} \u{05de}\u{05e6}\u{05d5}\u{05e8}\u{05e3})"@, 2, 'ק');
    lemma_count_absent(" (file attached)"@, 'ק');
}

/// A message that is nothing but an announced attachment has no text left
/// once the attachment is taken out. For every file name `f`, each of the
/// forms the exports use strips to the empty text: `<attached: f>`,
/// `<מצורף: f>`, `<מצורף: f`, `f (קובץ מצורף)`, `f (קובצ מצורף)` and
/// `f (file attached)`.
pub proof fn law_lone_attachment_strips_to_nothing(f: Seq<char>)
    ensures
        strip_attachment("<attached: "@ + f + ">"@, f) == Seq::<char>::empty(),
        strip_attachment("<\u{05de}\u{05e6}\u{05d5}\u{05e8}\u{05e3}: "@ + f + ">"@, f)
            == Seq::<char>::empty(),
        strip_attachment("<\u{05de}\u{05e6}\u{05d5}\u{05e8}\u{05e3}: "@ + f, f) == Seq::<char>::empty(),
        strip_attachment(f + " (קובץ מצורף)"@, f) == Seq::<char>::empty(),
        strip_attachment(
            f + " (\u{05e7}\u{05d5}\u{05d1}\u{05e6} \u{05de}\u{05e6}\u{05d5}\u{05e8}\u{05e3})"@,
            f,
        ) == Seq::<char>::empty(),
        strip_attachment(f + " (file attached)"@, f) == Seq::<char>::empty(),
{
    let en = "<attached: "@;
    let he = "<\u{05de}\u{05e6}\u{05d5}\u{05e8}\u{05e3}: "@;
    let gt = ">"@;
    let s_final = " (קובץ מצורף)"@;
    let s_medial = " (\u{05e7}\u{05d5}\u{05d1}\u{05e6} \u{05de}\u{05e6}\u{05d5}\u{05e8}\u{05e3})"@;
    let s_en = " (file attached)"@;
    lemma_attachment_literals();
    lemma_remove_all_of_empty();
    lemma_trim_empty();
    let p1 = attached_marker() + f + gt;
    let p2 = hebrew_attached_marker() + f + gt;
    let p3 = hebrew_attached_marker() + f;
    let p4 = f + s_final;
    let p5 = f + s_medial;
    let p6 = f + s_en;
    lemma_count3(en, f, gt, '<');
    lemma_count3(he, f, gt, '<');
    lemma_count3(f, s_final, gt, '<');
    lemma_count3(f, s_medial, gt, '<');
    lemma_count3(f, s_en, gt, '<');
    lemma_count3(f, s_final, gt, 'ק');
    lemma_count3(f, s_medial, gt, 'ק');
    lemma_count3(f, s_en, gt, 'ק');
    // `<attached: f>`
    lemma_remove_all_whole(p1, p1);
    // `<מצורף: f>`
    lemma_remove_all_longer(p2, p1);
    lemma_remove_all_whole(p2, p2);
    // `<מצורף: f`
    lemma_remove_all_longer(p3, p1);
    lemma_remove_all_longer(p3, p2);
    lemma_remove_all_whole(p3, p3);
    // `f (קובץ מצורף)`
    lemma_remove_all_absent_by_count(p4, p1, '<');
    lemma_remove_all_absent_by_count(p4, p2, '<');
    lemma_remove_all_absent_by_count(p4, p3, '<');
    lemma_remove_all_whole(p4, p4);
    // `f (קובצ מצורף)`
    lemma_remove_all_absent_by_count(p5, p1, '<');
    lemma_remove_all_absent_by_count(p5, p2, '<');
    lemma_remove_all_absent_by_count(p5, p3, '<');
    assert(p5[f.len() + 5int] == s_medial[5]);
    assert(p4[f.len() + 5int] == s_final[5]);
    lemma_remove_all_same_len(p5, p4);
    lemma_remove_all_whole(p5, p5);
    // `f (file attached)`
    lemma_remove_all_absent_by_count(p6, p1, '<');
    lemma_remove_all_absent_by_count(p6, p2, '<');
    lemma_remove_all_absent_by_count(p6, p3, '<');
    lemma_remove_all_absent_by_count(p6, p4, 'ק');
    lemma_remove_all_absent_by_count(p6, p5, 'ק');
    lemma_remove_all_whole(p6, p6);
}

/// The three phrases by which an export says a message was deleted, and only
/// they, mark its text as a deletion notice: `ההודעה נמחקה`,
/// `הודעה זו נמחקה` and `ההודעה הזאת נמחקה`.
pub proof fn law_deletion_phrases(t: Seq<char>)
    ensures
        contains(t, "ההודעה נמחקה"@) ==> says_deleted(t),
        contains(t, "הודעה זו נמחקה"@) ==> says_deleted(t),
        contains(t, "ההודעה הזאת נמחקה"@) ==> says_deleted(t),
        says_deleted(t) ==> (contains(t, "ההודעה נמחקה"@) || contains(t, "הודעה זו נמחקה"@)
            || contains(t, "ההודעה הזאת נמחקה"@)),
{
}

/// The phrases by which an export says an attachment was left out, and only
/// they, mark a message as media omitted: `<Media omitted>`,
/// `<המדיה לא נכללה>`, `התמונה הושמטה`, `הסרטון הושמט` and `הקובץ הושמט`.
pub proof fn law_media_omitted_phrases(t: Seq<char>)
    ensures
        contains(t, "<Media omitted>"@) ==> says_media_omitted(t),
        contains(t, "<המדיה לא נכללה>"@) ==> says_media_omitted(t),
        contains(t, "התמונה הושמטה"@) ==> says_media_omitted(t),
        contains(t, "הסרטון הושמט"@) ==> says_media_omitted(t),
        contains(t, "הקובץ הושמט"@) ==> says_media_omitted(t),
        says_media_omitted(t) ==> (contains(t, "<Media omitted>"@) || contains(
            t,
            "<המדיה לא נכללה>"@,
        ) || contains(t, "התמונה הושמטה"@) || contains(t, "הסרטון הושמט"@) || contains(
            t,
            "הקובץ הושמט"@,
        )),
{
}

/// A sender candidate is a system notice exactly when it is longer than sixty
/// characters or holds one of the group-notice phrases: `הקבוצה נוצרה`
/// (group created), `הצטרף` (joined), `עזב` (left), `הוסיף` (added), `הסיר`
/// (removed), `שינ` (changed), `הודעות ושיחות` and `מוצפנות` (the encryption
/// notice).
pub proof fn law_system_notice_phrases(s: Seq<char>)
    ensures
        s.len() > 60 ==> is_system_sender(s),
        contains(s, "הקבוצה נוצרה"@) ==> is_system_sender(s),
        contains(s, "הצטרף"@) ==> is_system_sender(s),
        contains(s, "עזב"@) ==> is_system_sender(s),
        contains(s, "הוסיף"@) ==> is_system_sender(s),
        contains(s, "הסיר"@) ==> is_system_sender(s),
        contains(s, "שינ"@) ==> is_system_sender(s),
        contains(s, "הודעות ושיחות"@) ==> is_system_sender(s),
        contains(s, "מוצפנות"@) ==> is_system_sender(s),
        is_system_sender(s) ==> (s.len() > 60 || contains(s, "הקבוצה נוצרה"@) || contains(
            s,
            "הצטרף"@,
        ) || contains(s, "עזב"@) || contains(s, "הוסיף"@) || contains(s, "הסיר"@) || contains(
            s,
            "שינ"@,
        ) || contains(s, "הודעות ושיחות"@) || contains(s, "מוצפנות"@)),
{
}

/// The name ends, up to ASCII case, in `.jpg`, `.jpeg`, `.png` or `.gif`.
pub open spec fn has_image_extension(f: Seq<char>) -> bool {
    ends_with_ignore_ascii_case(f, ".jpg"@) || ends_with_ignore_ascii_case(f, ".jpeg"@)
        || ends_with_ignore_ascii_case(f, ".png"@) || ends_with_ignore_ascii_case(f, ".gif"@)
}

/// The name ends, up to ASCII case, in `.mp4` or `.mov`.
pub open spec fn has_video_extension(f: Seq<char>) -> bool {
    ends_with_ignore_ascii_case(f, ".mp4"@) || ends_with_ignore_ascii_case(f, ".mov"@)
}

/// The name ends, up to ASCII case, in `.mp3`, `.m4a`, `.ogg` or `.opus`.
pub open spec fn has_audio_extension(f: Seq<char>) -> bool {
    ends_with_ignore_ascii_case(f, ".mp3"@) || ends_with_ignore_ascii_case(f, ".m4a"@)
        || ends_with_ignore_ascii_case(f, ".ogg"@) || ends_with_ignore_ascii_case(f, ".opus"@)
}

/// The name ends, up to ASCII case, in `.pdf`, `.doc` or `.docx`.
pub open spec fn has_document_extension(f: Seq<char>) -> bool {
    ends_with_ignore_ascii_case(f, ".pdf"@) || ends_with_ignore_ascii_case(f, ".doc"@)
        || ends_with_ignore_ascii_case(f, ".docx"@)
}

/// A name ends in at most one of the known extensions' groups: their last
/// two letters tell them apart.
proof fn lemma_extension_groups_exclusive(f: Seq<char>)
    ensures
        has_image_extension(f) ==> !has_video_extension(f) && !has_audio_extension(f)
            && !has_document_extension(f) && !ends_with_ignore_ascii_case(f, ".webp"@),
        has_video_extension(f) ==> !has_audio_extension(f) && !has_document_extension(f)
            && !ends_with_ignore_ascii_case(f, ".webp"@),
        has_audio_extension(f) ==> !has_document_extension(f) && !ends_with_ignore_ascii_case(
            f,
            ".webp"@,
        ),
        has_document_extension(f) ==> !ends_with_ignore_ascii_case(f, ".webp"@),
{
    reveal_strlit(".jpg");
    reveal_strlit(".jpeg");
    reveal_strlit(".png");
    reveal_strlit(".gif");
    reveal_strlit(".mp4");
    reveal_strlit(".mov");
    reveal_strlit(".mp3");
    reveal_strlit(".m4a");
    reveal_strlit(".ogg");
    reveal_strlit(".opus");
    reveal_strlit(".pdf");
    reveal_strlit(".doc");
    reveal_strlit(".docx");
    reveal_strlit(".webp");
    lemma_ends_last_two(f, ".jpg"@);
    lemma_ends_last_two(f, ".jpeg"@);
    lemma_ends_last_two(f, ".png"@);
    lemma_ends_last_two(f, ".gif"@);
    lemma_ends_last_two(f, ".mp4"@);
    lemma_ends_last_two(f, ".mov"@);
    lemma_ends_last_two(f, ".mp3"@);
    lemma_ends_last_two(f, ".m4a"@);
    lemma_ends_last_two(f, ".ogg"@);
    lemma_ends_last_two(f, ".opus"@);
    lemma_ends_last_two(f, ".pdf"@);
    lemma_ends_last_two(f, ".doc"@);
    lemma_ends_last_two(f, ".docx"@);
    lemma_ends_last_two(f, ".webp"@);
}

/// The media kind an attachment name announces. The upper-case markers are
/// looked for in the order `PHOTO`, `VIDEO`, `STICKER`, `AUDIO`, `DOCUMENT`,
/// each together with its extensions (ASCII case ignored): images `.jpg`,
/// `.jpeg`, `.png`, `.gif`; videos `.mp4`, `.mov`; audio `.mp3`, `.m4a`,
/// `.ogg`, `.opus`; documents `.pdf`, `.doc`, `.docx`. After them a `.webp`
/// name is an image, and any other name is plain media.
pub proof fn law_media_kind_table(f: Seq<char>)
    ensures
        contains(f, "PHOTO"@) || has_image_extension(f) ==> media_kind(f) == MessageKind::Image,
        !contains(f, "PHOTO"@) && has_video_extension(f) ==> media_kind(f) == MessageKind::Video,
        !contains(f, "PHOTO"@) && !has_image_extension(f) && contains(f, "VIDEO"@) ==> media_kind(f)
            == MessageKind::Video,
        !contains(f, "PHOTO"@) && !contains(f, "VIDEO"@) && !has_image_extension(f)
            && !has_video_extension(f) && contains(f, "STICKER"@) ==> media_kind(f)
            == MessageKind::Sticker,
        !contains(f, "PHOTO"@) && !contains(f, "VIDEO"@) && !contains(f, "STICKER"@)
            && has_audio_extension(f) ==> media_kind(f) == MessageKind::Audio,
        !contains(f, "PHOTO"@) && !contains(f, "VIDEO"@) && !contains(f, "STICKER"@)
            && !has_image_extension(f) && !has_video_extension(f) && contains(f, "AUDIO"@)
            ==> media_kind(f) == MessageKind::Audio,
        !contains(f, "PHOTO"@) && !contains(f, "VIDEO"@) && !contains(f, "STICKER"@) && !contains(
            f,
            "AUDIO"@,
        ) && has_document_extension(f) ==> media_kind(f) == MessageKind::Document,
        !contains(f, "PHOTO"@) && !contains(f, "VIDEO"@) && !contains(f, "STICKER"@) && !contains(
            f,
            "AUDIO"@,
        ) && !has_image_extension(f) && !has_video_extension(f) && !has_audio_extension(f)
            && contains(f, "DOCUMENT"@) ==> media_kind(f) == MessageKind::Document,
        !holds_kind_marker(f) && ends_with_ignore_ascii_case(f, ".webp"@) ==> media_kind(f)
            == MessageKind::Image,
        !holds_kind_marker(f) && !has_image_extension(f) && !has_video_extension(f)
            && !has_audio_extension(f) && !has_document_extension(f)
            && !ends_with_ignore_ascii_case(f, ".webp"@) ==> media_kind(f) == MessageKind::Media,
{
    lemma_extension_groups_exclusive(f);
}

/// A file name as exports write it in an attachment: not empty, with no white
/// space and none of `<`, `>`, `(` and `)`.
pub open spec fn is_simple_attachment_name(f: Seq<char>) -> bool {
    &&& f.len() > 0
    &&& forall|k: int|
        0 <= k < f.len() ==> !is_white_space(#[trigger] f[k]) && f[k] != '<' && f[k] != '>'
            && f[k] != '(' && f[k] != ')'
}

proof fn lemma_marker_name(t: Seq<char>, m: Seq<char>, f: Seq<char>, closed: bool)
    requires
        is_simple_attachment_name(f),
        m.len() > 0,
        m[0] == '<',
        forall|k: int| 1 <= k < m.len() ==> m[k] != '<' && m[k] != '>',
        t == if closed {
            m + f + ">"@
        } else {
            m + f
        },
    ensures
        name_after_marker(t, m) == Some(f),
{
    reveal_strlit(">");
    lemma_find_by_first_char(t, m, 0);
    assert(t.subrange(0, m.len() as int) =~= m);
    let after = t.subrange(m.len() as int, t.len() as int);
    lemma_trim_plain(f);
    if closed {
        assert(after =~= f + ">"@);
        lemma_find_by_first_char(after, seq!['>'], f.len() as int);
        assert(after.subrange(f.len() as int, f.len() + 1int) =~= seq!['>']);
        assert(after.subrange(0, f.len() as int) =~= f);
    } else {
        assert(after =~= f);
        lemma_find_by_first_char(after, seq!['>'], f.len() as int);
        assert(after.subrange(0, f.len() as int) =~= f);
    }
}

proof fn lemma_marker_absent(t: Seq<char>, m: Seq<char>, other: Seq<char>)
    requires
        m.len() >= 2,
        m[0] == '<',
        t.len() >= 2,
        t[0] == '<',
        t[1] != m[1],
        forall|k: int| 1 <= k < t.len() ==> t[k] != '<',
    ensures
        name_after_marker(t, m) is None,
{
    lemma_find_by_first_char(t, m, 0);
    if occurs_at(t, m, 0) {
        assert(t.subrange(0, m.len() as int)[1] == t[1]);
    }
}

proof fn lemma_no_marker(t: Seq<char>, m: Seq<char>)
    requires
        m.len() > 0,
        m[0] == '<',
        forall|k: int| 0 <= k < t.len() ==> t[k] != '<',
    ensures
        name_after_marker(t, m) is None,
{
    lemma_find_by_first_char(t, m, t.len() as int);
}

/// `t` is `f`, a space and `s`, where `s` opens with `(`: the first `(` of
/// `t` is the one of `s`.
proof fn lemma_suffix_name(f: Seq<char>, s: Seq<char>, b: Seq<char>)
    requires
        is_simple_attachment_name(f),
        s.len() >= 2,
        s[0] == ' ',
        s[1] == '(',
        forall|k: int| 2 <= k < s.len() ==> s[k] != '(',
        b.len() > 0,
        b[0] == '(',
    ensures
        name_before_suffix(f + s, b) == if occurs_at(f + s, b, f.len() + 1int) {
            Some(f)
        } else {
            None::<Seq<char>>
        },
{
    let t = f + s;
    lemma_find_by_first_char(t, b, f.len() + 1int);
    let before = t.subrange(0, f.len() + 1int);
    assert(before =~= f.push(' '));
    lemma_trim_plain(f);
    lemma_last_word_plain(f);
}

/// The attachment a message announces is found, exactly, in each of the
/// forms the exports use, for every file name `f` without white space or
/// brackets: `<attached: f>`, `<מצורף: f>`, `<מצורף: f`, `f (קובצ מצורף)`,
/// `f (file attached)` and `f (קובץ מצורף)`.
pub proof fn law_find_attachment_forms(f: Seq<char>)
    requires
        is_simple_attachment_name(f),
    ensures
        find_attachment("<attached: "@ + f + ">"@) == Some(f),
        find_attachment("<\u{05de}\u{05e6}\u{05d5}\u{05e8}\u{05e3}: "@ + f + ">"@) == Some(f),
        find_attachment("<\u{05de}\u{05e6}\u{05d5}\u{05e8}\u{05e3}: "@ + f) == Some(f),
        find_attachment(
            f + " (\u{05e7}\u{05d5}\u{05d1}\u{05e6} \u{05de}\u{05e6}\u{05d5}\u{05e8}\u{05e3})"@,
        ) == Some(f),
        find_attachment(f + " (file attached)"@) == Some(f),
        find_attachment(f + " (קובץ מצורף)"@) == Some(f),
{
    let en = "<attached: "@;
    let he = "<\u{05de}\u{05e6}\u{05d5}\u{05e8}\u{05e3}: "@;
    let gt = ">"@;
    let s_medial = " (\u{05e7}\u{05d5}\u{05d1}\u{05e6} \u{05de}\u{05e6}\u{05d5}\u{05e8}\u{05e3})"@;
    let s_en = " (file attached)"@;
    let s_final = " (קובץ מצורף)"@;
    let b_medial = "(\u{05e7}\u{05d5}\u{05d1}\u{05e6} \u{05de}\u{05e6}\u{05d5}\u{05e8}\u{05e3})"@;
    let b_en = "(file attached)"@;
    let b_final = "(קובץ מצורף)"@;
    reveal_strlit("<attached: ");
    reveal_strlit("<\u{05de}\u{05e6}\u{05d5}\u{05e8}\u{05e3}: ");
    reveal_strlit(">");
    reveal_strlit(" (\u{05e7}\u{05d5}\u{05d1}\u{05e6} \u{05de}\u{05e6}\u{05d5}\u{05e8}\u{05e3})");
    reveal_strlit(" (file attached)");
    reveal_strlit(" (קובץ מצורף)");
    reveal_strlit("(\u{05e7}\u{05d5}\u{05d1}\u{05e6} \u{05de}\u{05e6}\u{05d5}\u{05e8}\u{05e3})");
    reveal_strlit("(file attached)");
    reveal_strlit("(קובץ מצורף)");
    // `<attached: f>`
    let t1 = en + f + gt;
    lemma_marker_name(t1, en, f, true);
    // `<מצורף: f>` and `<מצורף: f`
    let t2 = he + f + gt;
    let t3 = he + f;
    assert forall|k: int| 1 <= k < t2.len() implies t2[k] != '<' by {
        if k < he.len() {
        } else if k < he.len() + f.len() {
            assert(t2[k] == f[k - he.len()]);
        }
    }
    assert forall|k: int| 1 <= k < t3.len() implies t3[k] != '<' by {
        if k >= he.len() {
            assert(t3[k] == f[k - he.len()]);
        }
    }
    lemma_marker_absent(t2, en, he);
    lemma_marker_absent(t3, en, he);
    lemma_marker_name(t2, he, f, true);
    lemma_marker_name(t3, he, f, false);
    // The Android forms hold no `<`.
    let a1 = f + s_medial;
    let a2 = f + s_en;
    let a3 = f + s_final;
    assert forall|k: int| 0 <= k < a1.len() implies a1[k] != '<' by {
        if k < f.len() {
            assert(a1[k] == f[k]);
        }
    }
    assert forall|k: int| 0 <= k < a2.len() implies a2[k] != '<' by {
        if k < f.len() {
            assert(a2[k] == f[k]);
        }
    }
    assert forall|k: int| 0 <= k < a3.len() implies a3[k] != '<' by {
        if k < f.len() {
            assert(a3[k] == f[k]);
        }
    }
    lemma_no_marker(a1, en);
    lemma_no_marker(a1, he);
    lemma_no_marker(a2, en);
    lemma_no_marker(a2, he);
    lemma_no_marker(a3, en);
    lemma_no_marker(a3, he);
    let n = f.len() as int;
    // `f (קובצ מצורף)`
    lemma_suffix_name(f, s_medial, b_medial);
    assert(a1.subrange(n + 1, n + 1 + b_medial.len()) =~= b_medial);
    // `f (file attached)`
    lemma_suffix_name(f, s_en, b_medial);
    lemma_suffix_name(f, s_en, b_en);
    assert(a2.subrange(n + 1, n + 1 + b_medial.len())[1] == a2[n + 2]);
    assert(a2.subrange(n + 1, n + 1 + b_en.len()) =~= b_en);
    // `f (קובץ מצורף)`
    lemma_suffix_name(f, s_final, b_medial);
    lemma_suffix_name(f, s_final, b_en);
    lemma_suffix_name(f, s_final, b_final);
    assert(a3.subrange(n + 1, n + 1 + b_medial.len())[4] == a3[n + 5]);
    assert(a3.subrange(n + 1, n + 1 + b_final.len()) =~= b_final);
}

/// The edit marker `<ההודעה נערכה>` that an export puts after an edited
/// message's text is taken out, and the text before it is kept.
pub proof fn law_edit_marker_removed(x: Seq<char>)
    requires
        forall|k: int| 0 <= k < x.len() ==> x[k] != '<',
    ensures
        remove_all(x + "<ההודעה נערכה>"@, edit_marker()) == x,
{
    reveal_strlit("<ההודעה נערכה>");
    lemma_remove_all_trailing(x, edit_marker());
}

/// An Android attachment suffix left on its own in a message text is taken
/// out, whatever the attachment's name: `(file attached)`, `(קובץ מצורף)`
/// and `(קובצ מצורף)` each strip to the empty text.
pub proof fn law_lone_suffix_strips_to_nothing(f: Seq<char>)
    ensures
        strip_attachment("(file attached)"@, f) == Seq::<char>::empty(),
        strip_attachment("(קובץ מצורף)"@, f) == Seq::<char>::empty(),
        strip_attachment(
            "(\u{05e7}\u{05d5}\u{05d1}\u{05e6} \u{05de}\u{05e6}\u{05d5}\u{05e8}\u{05e3})"@,
            f,
        ) == Seq::<char>::empty(),
{
    let en = "<attached: "@;
    let he = "<\u{05de}\u{05e6}\u{05d5}\u{05e8}\u{05e3}: "@;
    let gt = ">"@;
    let s_final = " (קובץ מצורף)"@;
    let s_medial = " (\u{05e7}\u{05d5}\u{05d1}\u{05e6} \u{05de}\u{05e6}\u{05d5}\u{05e8}\u{05e3})"@;
    let s_en = " (file attached)"@;
    let b_en = "(file attached)"@;
    let b_final = "(קובץ מצורף)"@;
    let b_medial = "(\u{05e7}\u{05d5}\u{05d1}\u{05e6} \u{05de}\u{05e6}\u{05d5}\u{05e8}\u{05e3})"@;
    reveal_strlit("(file attached)");
    reveal_strlit("(קובץ מצורף)");
    reveal_strlit("(\u{05e7}\u{05d5}\u{05d1}\u{05e6} \u{05de}\u{05e6}\u{05d5}\u{05e8}\u{05e3})");
    lemma_attachment_literals();
    lemma_remove_all_of_empty();
    lemma_trim_empty();
    lemma_count_absent(b_en, '<');
    lemma_count_absent(b_final, '<');
    lemma_count_absent(b_medial, '<');
    lemma_count_absent(b_en, 'ק');
    lemma_count_present(b_final, 1, 'ק');
    lemma_count_present(b_medial, 1, 'ק');
    let p1 = attached_marker() + f + gt;
    let p2 = hebrew_attached_marker() + f + gt;
    let p3 = hebrew_attached_marker() + f;
    let p4 = f + s_final;
    let p5 = f + s_medial;
    let p6 = f + s_en;
    lemma_count3(en, f, gt, '<');
    lemma_count3(he, f, gt, '<');
    lemma_count3(f, s_final, gt, 'ק');
    lemma_count3(f, s_medial, gt, 'ק');
    // `(file attached)`
    lemma_remove_all_absent_by_count(b_en, p1, '<');
    lemma_remove_all_absent_by_count(b_en, p2, '<');
    lemma_remove_all_absent_by_count(b_en, p3, '<');
    lemma_remove_all_absent_by_count(b_en, p4, 'ק');
    lemma_remove_all_absent_by_count(b_en, p5, 'ק');
    lemma_remove_all_longer(b_en, p6);
    lemma_remove_all_absent_by_count(b_en, b_final, 'ק');
    lemma_remove_all_absent_by_count(b_en, b_medial, 'ק');
    lemma_remove_all_whole(b_en, b_en);
    // `(קובץ מצורף)`
    lemma_remove_all_absent_by_count(b_final, p1, '<');
    lemma_remove_all_absent_by_count(b_final, p2, '<');
    lemma_remove_all_absent_by_count(b_final, p3, '<');
    lemma_remove_all_longer(b_final, p4);
    lemma_remove_all_longer(b_final, p5);
    lemma_remove_all_longer(b_final, p6);
    lemma_remove_all_whole(b_final, b_final);
    // `(קובצ מצורף)`
    lemma_remove_all_absent_by_count(b_medial, p1, '<');
    lemma_remove_all_absent_by_count(b_medial, p2, '<');
    lemma_remove_all_absent_by_count(b_medial, p3, '<');
    lemma_remove_all_longer(b_medial, p4);
    lemma_remove_all_longer(b_medial, p5);
    lemma_remove_all_longer(b_medial, p6);
    assert(b_medial[4] != b_final[4]);
    lemma_remove_all_same_len(b_medial, b_final);
    lemma_remove_all_whole(b_medial, b_medial);
}

/// No character of `s` is `c`.
pub open spec fn lacks(s: Seq<char>, c: char) -> bool {
    forall|k: int| 0 <= k < s.len() ==> s[k] != c
}

proof fn lemma_lacks_concat(a: Seq<char>, b: Seq<char>, c: char)
    requires
        lacks(a, c),
        lacks(b, c),
    ensures
        lacks(a + b, c),
{
    assert forall|k: int| 0 <= k < (a + b).len() implies (a + b)[k] != c by {
        if k >= a.len() {
            assert((a + b)[k] == b[k - a.len()]);
        } else {
            assert((a + b)[k] == a[k]);
        }
    }
}

proof fn lemma_blank_lacks(w: Seq<char>)
    requires
        is_blank(w),
    ensures
        lacks(w, '<'),
        lacks(w, '>'),
        lacks(w, '('),
{
    assert(!is_white_space('<'));
    assert(!is_white_space('>'));
    assert(!is_white_space('('));
}

/// The name between a marker and `>` (or the end), with white space around
/// it, is the name.
proof fn lemma_marker_name_in_text(
    x: Seq<char>,
    m: Seq<char>,
    w1: Seq<char>,
    f: Seq<char>,
    w2: Seq<char>,
    tail: Seq<char>,
)
    requires
        f.len() > 0,
        !is_white_space(f[0]),
        !is_white_space(f.last()),
        lacks(f, '>'),
        is_blank(w1),
        is_blank(w2),
        lacks(x, '<'),
        m.len() > 0,
        m[0] == '<',
        tail.len() == 0 || tail[0] == '>',
    ensures
        name_after_marker(x + m + w1 + f + w2 + tail, m) == Some(f),
{
    let t = x + m + w1 + f + w2 + tail;
    let xl = x.len() as int;
    assert(t.subrange(xl, xl + m.len()) =~= m);
    assert forall|j: int| 0 <= j < xl implies t[j] != m[0] by {
        assert(t[j] == x[j]);
    }
    lemma_find_first(t, m, xl);
    let after = t.subrange(xl + m.len(), t.len() as int);
    assert(after =~= w1 + f + w2 + tail);
    lemma_blank_lacks(w1);
    lemma_blank_lacks(w2);
    lemma_lacks_concat(w1, f, '>');
    lemma_lacks_concat(w1 + f, w2, '>');
    let body = w1 + f + w2;
    let bl = body.len() as int;
    if tail.len() > 0 {
        assert(after.subrange(bl, bl + 1) =~= seq!['>']);
        assert forall|j: int| 0 <= j < bl implies after[j] != seq!['>'][0] by {
            assert(after[j] == body[j]);
        }
        lemma_find_first(after, seq!['>'], bl);
    } else {
        assert(after =~= body);
        lemma_find_by_first_char(after, seq!['>'], after.len() as int);
    }
    assert(after.subrange(0, bl) =~= body);
    lemma_trim_start_concat(w1, f + w2);
    lemma_trim_white(f, w2);
    lemma_trim_white(f, w1);
    assert(w1 + (f + w2) =~= body);
    assert(Seq::<char>::empty() + (f + w2) =~= f + w2);
    assert(trim_end(f) == f);
}

/// The attachment an iOS message announces is found within any text: for a
/// name `f` without `<` or `>` and with no white space at its ends, white
/// space `w1` and `w2` around it, any text `x` without `<` before the marker
/// and any text `y` after the `>`, `<attached: f>` gives `f`; so does
/// `<מצורף: f>` when `y` has no `<`, and `<מצורף: f` at the end of the text.
pub proof fn law_find_ios_attachment_in_text(
    x: Seq<char>,
    w1: Seq<char>,
    f: Seq<char>,
    w2: Seq<char>,
    y: Seq<char>,
)
    requires
        f.len() > 0,
        !is_white_space(f[0]),
        !is_white_space(f.last()),
        lacks(f, '<'),
        lacks(f, '>'),
        is_blank(w1),
        is_blank(w2),
        lacks(x, '<'),
    ensures
        find_attachment(x + "<attached: "@ + w1 + f + w2 + (">"@ + y)) == Some(f),
        lacks(y, '<') ==> find_attachment(
            x + "<\u{05de}\u{05e6}\u{05d5}\u{05e8}\u{05e3}: "@ + w1 + f + w2 + (">"@ + y),
        ) == Some(f),
        find_attachment(x + "<\u{05de}\u{05e6}\u{05d5}\u{05e8}\u{05e3}: "@ + w1 + f + w2)
            == Some(f),
{
    let en = "<attached: "@;
    let he = "<\u{05de}\u{05e6}\u{05d5}\u{05e8}\u{05e3}: "@;
    reveal_strlit("<attached: ");
    reveal_strlit("<\u{05de}\u{05e6}\u{05d5}\u{05e8}\u{05e3}: ");
    reveal_strlit(">");
    let tail = ">"@ + y;
    lemma_marker_name_in_text(x, en, w1, f, w2, tail);
    lemma_marker_name_in_text(x, he, w1, f, w2, tail);
    lemma_marker_name_in_text(x, he, w1, f, w2, Seq::<char>::empty());
    assert(x + he + w1 + f + w2 + Seq::<char>::empty() =~= x + he + w1 + f + w2);
    // Before the Hebrew marker, the English one is nowhere.
    let xl = x.len() as int;
    lemma_blank_lacks(w1);
    lemma_blank_lacks(w2);
    assert(lacks(he.subrange(1, he.len() as int), '<'));
    lemma_lacks_concat(he.subrange(1, he.len() as int), w1, '<');
    lemma_lacks_concat(he.subrange(1, he.len() as int) + w1, f, '<');
    lemma_lacks_concat(he.subrange(1, he.len() as int) + w1 + f, w2, '<');
    let r = he.subrange(1, he.len() as int) + w1 + f + w2;
    let t3 = x + he + w1 + f + w2;
    assert(t3 =~= x + seq!['<'] + r);
    assert forall|j: int| 0 <= j < t3.len() && j != xl implies t3[j] != en[0] by {
        if j < xl {
            assert(t3[j] == x[j]);
        } else {
            assert(t3[j] == r[j - xl - 1]);
        }
    }
    lemma_find_by_first_char(t3, en, xl);
    if occurs_at(t3, en, xl) {
        assert(t3.subrange(xl, xl + en.len())[1] == t3[xl + 1]);
    }
    if lacks(y, '<') {
        assert(lacks(">"@, '<'));
        lemma_lacks_concat(">"@, y, '<');
        lemma_lacks_concat(r, tail, '<');
        let t2 = x + he + w1 + f + w2 + tail;
        assert(t2 =~= x + seq!['<'] + (r + tail));
        assert forall|j: int| 0 <= j < t2.len() && j != xl implies t2[j] != en[0] by {
            if j < xl {
                assert(t2[j] == x[j]);
            } else {
                assert(t2[j] == (r + tail)[j - xl - 1]);
            }
        }
        lemma_find_by_first_char(t2, en, xl);
        if occurs_at(t2, en, xl) {
            assert(t2.subrange(xl, xl + en.len())[1] == t2[xl + 1]);
        }
    }
}

/// The name before an Android suffix, after other words, is the last word.
proof fn lemma_suffix_name_in_text(x: Seq<char>, f: Seq<char>, s: Seq<char>, b: Seq<char>)
    requires
        is_simple_attachment_name(f),
        lacks(x, '('),
        x.len() == 0 || is_white_space(x.last()),
        s.len() >= 2,
        s[0] == ' ',
        s[1] == '(',
        forall|k: int| 2 <= k < s.len() ==> s[k] != '(',
        b.len() > 0,
        b[0] == '(',
    ensures
        name_before_suffix(x + f + s, b) == if occurs_at(x + f + s, b, x.len() + f.len() + 1int) {
            Some(f)
        } else {
            None::<Seq<char>>
        },
{
    let t = x + f + s;
    let n: int = (x.len() + f.len()) as int;
    assert forall|j: int| 0 <= j < t.len() && j != n + 1 implies t[j] != b[0] by {
        if j < x.len() {
            assert(t[j] == x[j]);
        } else if j < n {
            assert(t[j] == f[j - x.len()]);
        } else {
            assert(t[j] == s[j - n]);
        }
    }
    lemma_find_by_first_char(t, b, n + 1);
    let before = t.subrange(0, n + 1);
    assert(before =~= x + f.push(' '));
    assert(f.push(' ')[0] == f[0]);
    lemma_trim_start_concat(x, f.push(' '));
    let xs = trim_start(x);
    lemma_trim_start_last(x);
    assert(xs + f.push(' ') =~= (xs + f) + seq![' ']);
    assert(is_white_space(' '));
    assert(is_blank(seq![' ']));
    lemma_trim_white(xs + f, seq![' ']);
    assert((xs + f).last() == f.last());
    assert(trim_end(xs + f) == xs + f);
    lemma_word_start_after(xs, f);
    assert((xs + f).subrange(xs.len() as int, (xs + f).len() as int) =~= f);
    lemma_trim_plain(f);
}

/// The attachment an Android message announces is found after any words:
/// for a name `f` without white space or brackets, and a text `x` before it
/// that is empty or ends with white space and holds no `<` or `(`,
/// `x f (קובצ מצורף)`, `x f (file attached)` and `x f (קובץ מצורף)` give `f`.
pub proof fn law_find_android_attachment_in_text(x: Seq<char>, f: Seq<char>)
    requires
        is_simple_attachment_name(f),
        lacks(x, '<'),
        lacks(x, '('),
        x.len() == 0 || is_white_space(x.last()),
    ensures
        find_attachment(
            x + f + " (\u{05e7}\u{05d5}\u{05d1}\u{05e6} \u{05de}\u{05e6}\u{05d5}\u{05e8}\u{05e3})"@,
        ) == Some(f),
        find_attachment(x + f + " (file attached)"@) == Some(f),
        find_attachment(x + f + " (קובץ מצורף)"@) == Some(f),
{
    let en = "<attached: "@;
    let he = "<\u{05de}\u{05e6}\u{05d5}\u{05e8}\u{05e3}: "@;
    let s_medial = " (\u{05e7}\u{05d5}\u{05d1}\u{05e6} \u{05de}\u{05e6}\u{05d5}\u{05e8}\u{05e3})"@;
    let s_en = " (file attached)"@;
    let s_final = " (קובץ מצורף)"@;
    let b_medial = "(\u{05e7}\u{05d5}\u{05d1}\u{05e6} \u{05de}\u{05e6}\u{05d5}\u{05e8}\u{05e3})"@;
    let b_en = "(file attached)"@;
    let b_final = "(קובץ מצורף)"@;
    reveal_strlit("<attached: ");
    reveal_strlit("<\u{05de}\u{05e6}\u{05d5}\u{05e8}\u{05e3}: ");
    reveal_strlit(" (\u{05e7}\u{05d5}\u{05d1}\u{05e6} \u{05de}\u{05e6}\u{05d5}\u{05e8}\u{05e3})");
    reveal_strlit(" (file attached)");
    reveal_strlit(" (קובץ מצורף)");
    reveal_strlit("(\u{05e7}\u{05d5}\u{05d1}\u{05e6} \u{05de}\u{05e6}\u{05d5}\u{05e8}\u{05e3})");
    reveal_strlit("(file attached)");
    reveal_strlit("(קובץ מצורף)");
    assert(lacks(f, '<'));
    lemma_lacks_concat(x, f, '<');
    assert(lacks(s_medial, '<'));
    assert(lacks(s_en, '<'));
    assert(lacks(s_final, '<'));
    lemma_lacks_concat(x + f, s_medial, '<');
    lemma_lacks_concat(x + f, s_en, '<');
    lemma_lacks_concat(x + f, s_final, '<');
    let a1 = x + f + s_medial;
    let a2 = x + f + s_en;
    let a3 = x + f + s_final;
    lemma_no_marker(a1, en);
    lemma_no_marker(a1, he);
    lemma_no_marker(a2, en);
    lemma_no_marker(a2, he);
    lemma_no_marker(a3, en);
    lemma_no_marker(a3, he);
    let n: int = (x.len() + f.len()) as int;
    lemma_suffix_name_in_text(x, f, s_medial, b_medial);
    assert(a1.subrange(n + 1, n + 1 + b_medial.len()) =~= b_medial);
    lemma_suffix_name_in_text(x, f, s_en, b_medial);
    lemma_suffix_name_in_text(x, f, s_en, b_en);
    assert(a2.subrange(n + 1, n + 1 + b_medial.len())[1] == a2[n + 2]);
    assert(a2.subrange(n + 1, n + 1 + b_en.len()) =~= b_en);
    lemma_suffix_name_in_text(x, f, s_final, b_medial);
    lemma_suffix_name_in_text(x, f, s_final, b_en);
    lemma_suffix_name_in_text(x, f, s_final, b_final);
    assert(a3.subrange(n + 1, n + 1 + b_medial.len())[4] == a3[n + 5]);
    assert(a3.subrange(n + 1, n + 1 + b_final.len()) =~= b_final);
}

} // verus!
