//! The rules an import applies to the entries of a chat export archive:
//! limits, skipped entries, the choice of the chat text file and the chat
//! name, and the clean-up of a failed import.
use vstd::prelude::*;
use crate::error::ImportError;
use crate::platform::{file_stem_of, path_file_name, stem_of_file_name};
use crate::text::{
    eq_ignore_ascii_case, eq_ignore_ascii_case_exec, ends_with_ignore_ascii_case,
    ends_with_ignore_ascii_case_exec, occurs_at, occurs_at_exec, slice_chars, from_chars,
    starts_with_ignore_ascii_case, starts_with_ignore_ascii_case_exec, to_chars,
};

verus! {

/// The most entries an archive may hold.
pub const MAX_ARCHIVE_FILES: usize = 50000;

/// The most bytes an import may extract (20 GiB).
pub const MAX_EXTRACTED_BYTES: u64 = 21474836480;

/// Refuses an archive with more than `MAX_ARCHIVE_FILES` entries.
pub fn check_archive_len(entries: usize) -> (r: Result<(), ImportError>)
    ensures
        r is Ok <==> entries <= MAX_ARCHIVE_FILES,
        r is Err ==> r == Err::<(), ImportError>(ImportError::TooManyFiles),
{
    if entries > MAX_ARCHIVE_FILES {
        Err(ImportError::TooManyFiles)
    } else {
        Ok(())
    }
}

/// The running total of bytes extracted by an import; it never exceeds
/// `MAX_EXTRACTED_BYTES`.
pub struct ExtractionBudget {
    extracted: u64,
}

impl ExtractionBudget {
    #[verifier::type_invariant]
    closed spec fn inv(&self) -> bool {
        self.extracted <= MAX_EXTRACTED_BYTES
    }

    /// The bytes counted so far.
    pub closed spec fn total(&self) -> u64 {
        self.extracted
    }

    /// Nothing extracted yet.
    pub fn new() -> (r: Self)
        ensures
            r.total() == 0,
    {
        ExtractionBudget { extracted: 0 }
    }

    /// The bytes counted so far, which are within the limit.
    pub fn extracted(&self) -> (n: u64)
        ensures
            n == self.total(),
            n <= MAX_EXTRACTED_BYTES,
    {
        proof {
            use_type_invariant(self);
        }
        self.extracted
    }

    /// Counts an entry of `size` bytes. Refused when the total no longer fits
    /// in a `u64`, or when it would exceed `MAX_EXTRACTED_BYTES`; a refused
    /// entry is not counted.
    pub fn add(&mut self, size: u64) -> (r: Result<(), ImportError>)
        ensures
            old(self).total() + size > u64::MAX ==> r == Err::<(), ImportError>(
                ImportError::ExtractedSizeOverflow,
            ),
            old(self).total() + size <= u64::MAX && old(self).total() + size > MAX_EXTRACTED_BYTES
                ==> r == Err::<(), ImportError>(ImportError::ExtractedSizeLimit),
            old(self).total() + size <= MAX_EXTRACTED_BYTES ==> r is Ok,
            r is Ok ==> final(self).total() == old(self).total() + size,
            r is Err ==> final(self).total() == old(self).total(),
    {
        proof {
            use_type_invariant(&*self);
        }
        match self.extracted.checked_add(size) {
            None => Err(ImportError::ExtractedSizeOverflow),
            Some(total) => {
                if total > MAX_EXTRACTED_BYTES {
                    Err(ImportError::ExtractedSizeLimit)
                } else {
                    self.extracted = total;
                    Ok(())
                }
            },
        }
    }
}

/// An entry that an import skips: anything under a `__MACOSX` folder, and
/// `.DS_Store` files.
pub open spec fn is_ignored(first_component: Option<Seq<char>>, file_name: Option<Seq<char>>) -> bool {
    first_component == Some("__MACOSX"@) || file_name == Some(".DS_Store"@)
}

fn opt_equals(o: Option<&str>, lit: &str) -> (r: bool)
    ensures
        r == (match o {
            Some(s) => s@ == lit@,
            None => false,
        }),
{
    match o {
        Some(s) => {
            let a = to_chars(s);
            let b = to_chars(lit);
            crate::text::chars_equal(&a, &b)
        },
        None => false,
    }
}

/// Whether an archive entry is skipped, given the first component of its
/// relative path and its file name.
pub fn is_ignored_entry(first_component: Option<&str>, file_name: Option<&str>) -> (r: bool)
    ensures
        r == is_ignored(
            match first_component {
                Some(s) => Some(s@),
                None => None,
            },
            match file_name {
                Some(s) => Some(s@),
                None => None,
            },
        ),
{
    opt_equals(first_component, "__MACOSX") || opt_equals(file_name, ".DS_Store")
}

/// An archive entry whose name ends in `.txt`, whatever its case, is a
/// candidate for the chat text.
pub fn is_chat_text_entry(entry_name: &str) -> (r: bool)
    ensures
        r == ends_with_ignore_ascii_case(entry_name@, ".txt"@),
{
    let n = to_chars(entry_name);
    ends_with_ignore_ascii_case_exec(&n, &to_chars(".txt"))
}

/// A `.txt` entry that may hold the chat.
pub struct ChatFileCandidate {
    pub path: String,
    pub stem: String,
    pub size: u64,
}

/// A stem that names the chat file of an export: `_chat`, or one that starts
/// with `WhatsApp Chat`, whatever the case.
pub open spec fn is_chat_stem(stem: Seq<char>) -> bool {
    eq_ignore_ascii_case(stem, "_chat"@) || starts_with_ignore_ascii_case(stem, "whatsapp chat"@)
}

/// `a` ranks no higher than `b`: a chat-named file outranks any other, then
/// the larger file wins.
pub open spec fn ranks_at_most(a: (bool, u64), b: (bool, u64)) -> bool {
    (!a.0 && b.0) || (a.0 == b.0 && a.1 <= b.1)
}

/// The rank of a candidate.
pub open spec fn rank(c: ChatFileCandidate) -> (bool, u64) {
    (is_chat_stem(c.stem@), c.size)
}

fn is_chat_stem_exec(stem: &String) -> (r: bool)
    ensures
        r == is_chat_stem(stem@),
{
    let s = to_chars(stem.as_str());
    eq_ignore_ascii_case_exec(&s, &to_chars("_chat")) || starts_with_ignore_ascii_case_exec(
        &s,
        &to_chars("whatsapp chat"),
    )
}

/// Chooses the chat text among the candidates: the highest ranked, and of
/// equally ranked ones the last. `NoChatFile` when there is none.
pub fn select_chat_file(candidates: &Vec<ChatFileCandidate>) -> (r: Result<usize, ImportError>)
    ensures
        candidates@.len() == 0 ==> r == Err::<usize, ImportError>(ImportError::NoChatFile),
        candidates@.len() > 0 ==> r is Ok,
        r matches Ok(i) ==> {
            &&& i < candidates@.len()
            &&& forall|j: int|
                0 <= j < candidates@.len() ==> ranks_at_most(
                    rank(candidates@[j]),
                    rank(candidates@[i as int]),
                )
            &&& forall|j: int|
                i < j < candidates@.len() ==> !ranks_at_most(
                    rank(candidates@[i as int]),
                    rank(candidates@[j]),
                )
        },
{
    if candidates.len() == 0 {
        return Err(ImportError::NoChatFile);
    }
    let mut best: usize = 0;
    let mut best_named = is_chat_stem_exec(&candidates[0].stem);
    let mut i: usize = 1;
    while i < candidates.len()
        invariant
            0 <= best < i <= candidates@.len(),
            best_named == is_chat_stem(candidates@[best as int].stem@),
            forall|j: int|
                0 <= j < i ==> ranks_at_most(rank(candidates@[j]), rank(candidates@[best as int])),
            forall|j: int|
                best < j < i ==> !ranks_at_most(rank(candidates@[best as int]), rank(candidates@[j])),
        decreases candidates@.len() - i,
    {
        let named = is_chat_stem_exec(&candidates[i].stem);
        let size = candidates[i].size;
        let best_size = candidates[best].size;
        if (!best_named && named) || (best_named == named && best_size <= size) {
            best = i;
            best_named = named;
        }
        i += 1;
    }
    Ok(best)
}

/// The prefix that Android exports put before a contact's name.
pub open spec fn chat_with_prefix() -> Seq<char> {
    "WhatsApp Chat with "@
}

/// The name given to an imported chat, from the stem of its text file and the
/// stem of the archive's file name (`None` when it has none): the contact's
/// name after the `WhatsApp Chat with ` prefix; for an empty or `_chat` stem
/// the archive's stem, or `שיחת WhatsApp` when it has none; otherwise the
/// stem itself.
pub open spec fn chat_name_given(stem: Seq<char>, archive_stem: Option<Seq<char>>) -> Seq<char> {
    if occurs_at(stem, chat_with_prefix(), 0) {
        stem.subrange(chat_with_prefix().len() as int, stem.len() as int)
    } else if stem.len() == 0 || eq_ignore_ascii_case(stem, "_chat"@) {
        match archive_stem {
            Some(s) => s,
            None => "שיחת WhatsApp"@,
        }
    } else {
        stem
    }
}

/// The stem of the file name of a path, `None` when it has no file name.
pub open spec fn path_stem(path: Seq<char>) -> Option<Seq<char>> {
    match path_file_name(path) {
        Some(name) => Some(stem_of_file_name(name)),
        None => None,
    }
}

/// The name given to an imported chat from the stem of its text file and the
/// path of the archive.
pub open spec fn chat_name(stem: Seq<char>, zip_path: Seq<char>) -> Seq<char> {
    chat_name_given(stem, path_stem(zip_path))
}

/// The name given to an imported chat, given the stem of the archive's file
/// name.
pub fn chat_name_from(stem: &str, archive_stem: Option<String>) -> (r: String)
    ensures
        r@ == chat_name_given(
            stem@,
            match archive_stem {
                Some(z) => Some(z@),
                None => None,
            },
        ),
{
    let s = to_chars(stem);
    let prefix = to_chars("WhatsApp Chat with ");
    if occurs_at_exec(&s, &prefix, 0) {
        let rest = slice_chars(&s, prefix.len(), s.len());
        return from_chars(&rest);
    }
    if s.len() == 0 || eq_ignore_ascii_case_exec(&s, &to_chars("_chat")) {
        match archive_stem {
            Some(z) => z,
            None => "שיחת WhatsApp".to_owned(),
        }
    } else {
        stem.to_owned()
    }
}

/// The name given to an imported chat.
pub fn chat_name_for(stem: &str, zip_path: &str) -> (r: String)
    ensures
        r@ == chat_name(stem@, zip_path@),
{
    chat_name_from(stem, file_stem_of(zip_path))
}

/// The extraction folder of an import, removed when the import fails.
pub struct ImportCleanup {
    path: String,
    keep: bool,
}

impl ImportCleanup {
    /// The folder.
    pub closed spec fn folder(&self) -> Seq<char> {
        self.path@
    }

    /// Whether the folder is to be kept.
    pub closed spec fn kept(&self) -> bool {
        self.keep
    }

    /// Watches a new extraction folder, to be removed unless kept.
    pub fn new(path: String) -> (r: Self)
        ensures
            r.folder() == path@,
            !r.kept(),
    {
        ImportCleanup { path, keep: false }
    }

    /// Marks the import as finished: the folder stays.
    pub fn keep(&mut self)
        ensures
            final(self).kept(),
            final(self).folder() == old(self).folder(),
    {
        self.keep = true;
    }

    /// Whether the folder is to be removed.
    pub fn should_remove(&self) -> (r: bool)
        ensures
            r == !self.kept(),
    {
        !self.keep
    }

    /// The folder.
    pub fn path(&self) -> (r: &String)
        ensures
            r@ == self.folder(),
    {
        &self.path
    }
}

/// A text file whose stem is `_chat` or starts with `WhatsApp Chat` (ASCII
/// case ignored) is chosen over every file whose stem is neither, whatever
/// their sizes: it outranks it, and is not outranked by it.
pub proof fn law_chat_named_file_outranks(a: ChatFileCandidate, b: ChatFileCandidate)
    requires
        eq_ignore_ascii_case(a.stem@, "_chat"@) || starts_with_ignore_ascii_case(
            a.stem@,
            "whatsapp chat"@,
        ),
        !eq_ignore_ascii_case(b.stem@, "_chat"@),
        !starts_with_ignore_ascii_case(b.stem@, "whatsapp chat"@),
    ensures
        ranks_at_most(rank(b), rank(a)),
        !ranks_at_most(rank(a), rank(b)),
{
}

/// Among files that are equally chat-named or equally not, the larger one
/// ranks higher, and one of the same size ranks the same.
pub proof fn law_larger_file_outranks(a: ChatFileCandidate, b: ChatFileCandidate)
    requires
        (eq_ignore_ascii_case(a.stem@, "_chat"@) || starts_with_ignore_ascii_case(
            a.stem@,
            "whatsapp chat"@,
        )) == (eq_ignore_ascii_case(b.stem@, "_chat"@) || starts_with_ignore_ascii_case(
            b.stem@,
            "whatsapp chat"@,
        )),
    ensures
        a.size < b.size ==> ranks_at_most(rank(a), rank(b)) && !ranks_at_most(rank(b), rank(a)),
        a.size == b.size ==> ranks_at_most(rank(a), rank(b)) && ranks_at_most(rank(b), rank(a)),
{
}

/// How the chat is named from the stem of its text file: after the prefix
/// `WhatsApp Chat with ` the rest of the stem; for an empty stem or `_chat`
/// (ASCII case ignored) the archive's stem, or `שיחת WhatsApp` without one;
/// otherwise the stem unchanged.
pub proof fn law_chat_name_rules(stem: Seq<char>, archive_stem: Option<Seq<char>>, rest: Seq<char>)
    ensures
        chat_name_given("WhatsApp Chat with "@ + rest, archive_stem) == rest,
        !occurs_at(stem, "WhatsApp Chat with "@, 0) && (stem.len() == 0 || eq_ignore_ascii_case(
            stem,
            "_chat"@,
        )) ==> chat_name_given(stem, archive_stem) == match archive_stem {
            Some(z) => z,
            None => "שיחת WhatsApp"@,
        },
        !occurs_at(stem, "WhatsApp Chat with "@, 0) && stem.len() > 0 && !eq_ignore_ascii_case(
            stem,
            "_chat"@,
        ) ==> chat_name_given(stem, archive_stem) == stem,
{
    let full = "WhatsApp Chat with "@ + rest;
    assert(full.subrange(0, "WhatsApp Chat with "@.len() as int) =~= "WhatsApp Chat with "@);
    assert(full.subrange("WhatsApp Chat with "@.len() as int, full.len() as int) =~= rest);
}

/// Entries under a `__MACOSX` folder and `.DS_Store` files are skipped, and
/// no others.
pub proof fn law_ignored_entries(first_component: Option<Seq<char>>, file_name: Option<Seq<char>>)
    ensures
        is_ignored(Some("__MACOSX"@), file_name),
        is_ignored(first_component, Some(".DS_Store"@)),
        first_component != Some("__MACOSX"@) && file_name != Some(".DS_Store"@) ==> !is_ignored(
            first_component,
            file_name,
        ),
{
}

} // verus!
