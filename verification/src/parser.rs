//! Turning the lines of a chat export into messages.
//!
//! A line that opens with a timestamp starts a message; any other non-blank
//! line continues the message before it, joined with a line feed. Blank lines
//! and invisible formatting characters are ignored.
use vstd::prelude::*;
use crate::classify::{
    edit_marker, find_attachment, find_attachment_exec, is_system_message, is_system_sender,
    law_deletion_phrases, law_media_omitted_phrases, media_kind, media_kind_exec, says_deleted, says_deleted_exec, says_media_omitted,
    says_media_omitted_exec, strip_attachment, strip_attachment_exec, strip_edit_marker,
    MessageKind,
};
use crate::error::ImportError;
use crate::line_format::{
    law_sender_split, lemma_space_run_nonneg, newline_free, sender_bounds, split_header, split_header_exec, split_sender,
    split_sender_exec, strip_format_chars, strip_format_chars_exec,
};
use crate::media::MediaIndex;
use crate::platform::{
    file_name_of, is_plain_file_name, is_random_uuid_text, new_random_id, path_file_name,
};
use crate::text::{
    contains, find_char, from_chars, is_blank, is_white_space, lemma_trim_plain, is_blank_exec, lemma_find_char_sound, lemma_trim_keeps_absent,
    push_chars, remove_all, to_chars, trim, trim_exec,
};

verus! {

/// A message as the export describes it.
pub struct MessageModel {
    pub timestamp: Seq<char>,
    pub sender: Seq<char>,
    pub kind: MessageKind,
    pub text: Seq<char>,
    pub media_filename: Option<Seq<char>>,
    pub media_path: Option<Seq<char>>,
    pub system: bool,
    pub deleted: bool,
}

/// The view of an optional `String`.
pub open spec fn opt_view(o: Option<String>) -> Option<Seq<char>> {
    match o {
        Some(s) => Some(s@),
        None => None,
    }
}

/// A message read from the export, with the identifier it is stored under.
pub struct ParsedMessage {
    pub id: String,
    pub timestamp: String,
    pub sender: String,
    pub kind: MessageKind,
    pub text: String,
    pub media_filename: Option<String>,
    pub media_path: Option<String>,
    pub system: bool,
    pub deleted: bool,
}

impl View for ParsedMessage {
    type V = MessageModel;

    open spec fn view(&self) -> MessageModel {
        MessageModel {
            timestamp: self.timestamp@,
            sender: self.sender@,
            kind: self.kind,
            text: self.text@,
            media_filename: opt_view(self.media_filename),
            media_path: opt_view(self.media_path),
            system: self.system,
            deleted: self.deleted,
        }
    }
}

impl ParsedMessage {
    /// The message type label under which the message is stored.
    pub fn msg_type(&self) -> (r: String)
        ensures
            r@ == self.kind.label(),
    {
        self.kind.label_string()
    }
}

/// The sender of system notices.
pub open spec fn system_sender() -> Seq<char> {
    "מערכת"@
}

/// What an announced attachment `f` resolves to, given the file name of its
/// path (`None` when the path has none): the message kind and the path of the
/// extracted file. A file name that the index knows gives the media kind that
/// `f` announces and the recorded path; an unknown one gives `media_omitted`
/// and no path; a missing one is refused.
pub open spec fn attachment_resolution(
    f: Seq<char>,
    file_name: Option<Seq<char>>,
    media: Map<Seq<char>, Seq<char>>,
) -> Result<(MessageKind, Option<Seq<char>>), ImportError> {
    match file_name {
        Some(n) => if media.contains_key(n) {
            Ok((media_kind(f), Some(media[n])))
        } else {
            Ok((MessageKind::MediaOmitted, None))
        },
        None => Err(ImportError::InvalidMediaFilename),
    }
}

/// The file name under which an announced attachment `f` is looked up: `f`
/// itself when it is one plain component (the common case, `IMG-0001.jpg`),
/// otherwise the final component of the path, as `Path::file_name` gives it.
pub open spec fn attachment_file_name(f: Seq<char>) -> Option<Seq<char>> {
    if is_plain_file_name(f) {
        Some(f)
    } else {
        path_file_name(f)
    }
}

/// Resolves an announced attachment `attachment` against the index, given the
/// file name of its path.
pub fn resolve_attachment(
    attachment: &Vec<char>,
    file_name: Option<String>,
    media: &MediaIndex,
) -> (r: Result<(MessageKind, Option<String>), ImportError>)
    ensures
        match attachment_resolution(attachment@, opt_view(file_name), media@) {
            Ok((kind, path)) => r matches Ok((k, p)) && k == kind && opt_view(p) == path,
            Err(e) => r == Err::<(MessageKind, Option<String>), ImportError>(e),
        },
{
    match file_name {
        Some(name) => {
            let name_chars = to_chars(name.as_str());
            match media.get(&name_chars) {
                Some(p) => Ok((media_kind_exec(attachment), Some(p))),
                None => Ok((MessageKind::MediaOmitted, None)),
            }
        },
        None => Err(ImportError::InvalidMediaFilename),
    }
}

/// A message whose text `raw_text` a person sent.
pub open spec fn user_message(
    ts: Seq<char>,
    sender: Seq<char>,
    raw_text: Seq<char>,
    media: Map<Seq<char>, Seq<char>>,
) -> Result<MessageModel, ImportError> {
    let t = trim(remove_all(raw_text, edit_marker()));
    let plain = MessageModel {
        timestamp: ts,
        sender: sender,
        kind: MessageKind::Text,
        text: t,
        media_filename: None,
        media_path: None,
        system: false,
        deleted: false,
    };
    if says_deleted(t) {
        Ok(MessageModel { kind: MessageKind::Deleted, deleted: true, ..plain })
    } else if says_media_omitted(t) {
        Ok(MessageModel { kind: MessageKind::MediaOmitted, ..plain })
    } else {
        match find_attachment(t) {
            Some(f) => match attachment_resolution(f, attachment_file_name(f), media) {
                Ok((kind, path)) => Ok(
                    MessageModel {
                        kind: kind,
                        text: strip_attachment(t, f),
                        media_filename: Some(f),
                        media_path: path,
                        ..plain
                    },
                ),
                Err(e) => Err(e),
            },
            None => Ok(plain),
        }
    }
}

/// The message that a header line with timestamp `ts` and rest `rest` starts.
pub open spec fn header_message(ts: Seq<char>, rest: Seq<char>, media: Map<Seq<char>, Seq<char>>) -> Result<
    MessageModel,
    ImportError,
> {
    match split_sender(rest) {
        Some((name, text)) if !is_system_sender(trim(name)) => user_message(
            ts,
            trim(name),
            text,
            media,
        ),
        _ => Ok(
            MessageModel {
                timestamp: ts,
                sender: system_sender(),
                kind: MessageKind::System,
                text: rest,
                media_filename: None,
                media_path: None,
                system: true,
                deleted: false,
            },
        ),
    }
}

/// `m` with the continuation line `line` added to its text.
pub open spec fn continued(m: MessageModel, line: Seq<char>) -> MessageModel {
    MessageModel { text: m.text + seq!['\n'] + line, ..m }
}

/// The messages after one more raw line of the export.
pub open spec fn apply_line(
    msgs: Seq<MessageModel>,
    media: Map<Seq<char>, Seq<char>>,
    raw: Seq<char>,
) -> Result<Seq<MessageModel>, ImportError> {
    let line = strip_format_chars(raw);
    if is_blank(line) {
        Ok(msgs)
    } else {
        match split_header(line) {
            Some((ts, rest)) => match header_message(ts, rest, media) {
                Ok(m) => Ok(msgs.push(m)),
                Err(e) => Err(e),
            },
            None => if msgs.len() == 0 {
                Ok(msgs)
            } else {
                Ok(msgs.update(msgs.len() - 1, continued(msgs.last(), line)))
            },
        }
    }
}

/// The messages of a whole export, line by line; the first error stops it.
pub open spec fn parse_lines(lines: Seq<Seq<char>>, media: Map<Seq<char>, Seq<char>>) -> Result<
    Seq<MessageModel>,
    ImportError,
>
    decreases lines.len(),
{
    if lines.len() == 0 {
        Ok(Seq::empty())
    } else {
        match parse_lines(lines.drop_last(), media) {
            Ok(msgs) => apply_line(msgs, media, lines.last()),
            Err(e) => Err(e),
        }
    }
}

/// The model of a list of messages.
pub open spec fn models(v: Seq<ParsedMessage>) -> Seq<MessageModel> {
    v.map_values(|m: ParsedMessage| m@)
}

/// Every identifier has the form of a random UUID.
pub open spec fn ids_well_formed(v: Seq<ParsedMessage>) -> bool {
    forall|i: int| 0 <= i < v.len() ==> is_random_uuid_text(#[trigger] v[i].id@)
}

fn opt_string(o: Option<Vec<char>>) -> (r: Option<String>)
    ensures
        match o {
            Some(v) => r matches Some(s) && s@ == v@,
            None => r is None,
        },
{
    match o {
        Some(v) => Some(from_chars(&v)),
        None => None,
    }
}

/// The message that a person sent, with a fresh identifier.
fn user_message_exec(
    ts: &Vec<char>,
    sender: &Vec<char>,
    raw_text: &Vec<char>,
    media: &MediaIndex,
) -> (r: Result<ParsedMessage, ImportError>)
    ensures
        match user_message(ts@, sender@, raw_text@, media@) {
            Ok(m) => r matches Ok(pm) && pm@ == m && is_random_uuid_text(pm.id@),
            Err(e) => r == Err::<ParsedMessage, ImportError>(e),
        },
{
    let id = new_random_id();
    let t = strip_edit_marker(raw_text);
    let mut kind = MessageKind::Text;
    let mut text = t.clone();
    let mut deleted = false;
    let mut media_filename: Option<Vec<char>> = None;
    let mut media_path: Option<String> = None;
    if says_deleted_exec(&t) {
        kind = MessageKind::Deleted;
        deleted = true;
    } else if says_media_omitted_exec(&t) {
        kind = MessageKind::MediaOmitted;
    } else {
        match find_attachment_exec(&t) {
            Some(f) => {
                let f_string = from_chars(&f);
                let file_name = file_name_of(f_string.as_str());
                assert(opt_view(file_name) == attachment_file_name(f@));
                match resolve_attachment(&f, file_name, media) {
                    Ok((k, p)) => {
                        kind = k;
                        media_path = p;
                        text = strip_attachment_exec(&t, &f);
                        media_filename = Some(f);
                    },
                    Err(e) => {
                        return Err(e);
                    },
                }
            },
            None => {},
        }
    }
    Ok(
        ParsedMessage {
            id,
            timestamp: from_chars(ts),
            sender: from_chars(sender),
            kind,
            text: from_chars(&text),
            media_filename: opt_string(media_filename),
            media_path,
            system: false,
            deleted,
        },
    )
}

/// The message that a header line starts, with a fresh identifier.
fn header_message_exec(ts: &Vec<char>, rest: &Vec<char>, media: &MediaIndex) -> (r: Result<
    ParsedMessage,
    ImportError,
>)
    ensures
        match header_message(ts@, rest@, media@) {
            Ok(m) => r matches Ok(pm) && pm@ == m && is_random_uuid_text(pm.id@),
            Err(e) => r == Err::<ParsedMessage, ImportError>(e),
        },
{
    if let Some((name, text)) = split_sender_exec(rest) {
        let candidate = trim_exec(&name);
        let candidate_string = from_chars(&candidate);
        if !is_system_message(candidate_string.as_str()) {
            return user_message_exec(ts, &candidate, &text, media);
        }
    }
    let id = new_random_id();
    Ok(
        ParsedMessage {
            id,
            timestamp: from_chars(ts),
            sender: "מערכת".to_owned(),
            kind: MessageKind::System,
            text: from_chars(rest),
            media_filename: None,
            media_path: None,
            system: true,
            deleted: false,
        },
    )
}

/// What reading one line did.
#[derive(Clone, Copy, Debug, PartialEq, Eq, Structural)]
pub enum LineEffect {
    /// Nothing: a blank line, or text before the first message.
    Ignored,
    /// A new message started.
    Started,
    /// The line was added to the text of the last message.
    Continued,
}

/// What reading the raw line `raw` after the messages `msgs` does.
pub open spec fn line_effect(msgs: Seq<MessageModel>, raw: Seq<char>) -> LineEffect {
    let line = strip_format_chars(raw);
    if is_blank(line) {
        LineEffect::Ignored
    } else if split_header(line) is Some {
        LineEffect::Started
    } else if msgs.len() == 0 {
        LineEffect::Ignored
    } else {
        LineEffect::Continued
    }
}

/// Reads an export line by line, keeping the messages read so far.
pub struct ChatParser {
    media: MediaIndex,
    messages: Vec<ParsedMessage>,
    lines: Ghost<Seq<Seq<char>>>,
}

impl ChatParser {
    #[verifier::type_invariant]
    closed spec fn inv(&self) -> bool {
        &&& ids_well_formed(self.messages@)
        &&& parse_lines(self.lines@, self.media@) == Ok::<Seq<MessageModel>, ImportError>(
            models(self.messages@),
        )
    }

    /// The raw lines read so far.
    pub closed spec fn lines_read(&self) -> Seq<Seq<char>> {
        self.lines@
    }

    /// The attachments that messages can refer to.
    pub closed spec fn media(&self) -> Map<Seq<char>, Seq<char>> {
        self.media@
    }

    /// The messages read so far.
    pub closed spec fn messages_model(&self) -> Seq<MessageModel> {
        models(self.messages@)
    }

    /// A parser that has read nothing yet.
    pub fn new(media: MediaIndex) -> (r: Self)
        ensures
            r.media() == media@,
            r.messages_model() == Seq::<MessageModel>::empty(),
            r.lines_read() == Seq::<Seq<char>>::empty(),
    {
        let messages: Vec<ParsedMessage> = Vec::new();
        assert(models(messages@) =~= Seq::<MessageModel>::empty());
        let r = ChatParser { media, messages, lines: Ghost(Seq::empty()) };
        assert(r.messages_model() =~= Seq::<MessageModel>::empty());
        r
    }

    /// Reads one raw line of the export, and tells what it did. On an error
    /// nothing changes.
    pub fn push_line(&mut self, raw: &str) -> (r: Result<LineEffect, ImportError>)
        ensures
            final(self).media() == old(self).media(),
            match apply_line(old(self).messages_model(), old(self).media(), raw@) {
                Ok(msgs) => {
                    &&& r == Ok::<LineEffect, ImportError>(
                        line_effect(old(self).messages_model(), raw@),
                    )
                    &&& final(self).messages_model() == msgs
                    &&& final(self).lines_read() == old(self).lines_read().push(raw@)
                },
                Err(e) => {
                    &&& r == Err::<LineEffect, ImportError>(e)
                    &&& final(self).messages_model() == old(self).messages_model()
                    &&& final(self).lines_read() == old(self).lines_read()
                },
            },
    {
        proof {
            use_type_invariant(&*self);
        }
        let ghost old_msgs = self.messages@;
        let ghost new_lines = self.lines@.push(raw@);
        assert(new_lines.drop_last() =~= self.lines@);
        let raw_chars = to_chars(raw);
        let line = strip_format_chars_exec(&raw_chars);
        if is_blank_exec(&line) {
            self.lines = Ghost(new_lines);
            return Ok(LineEffect::Ignored);
        }
        match split_header_exec(&line) {
            Some((ts, rest)) => {
                match header_message_exec(&ts, &rest, &self.media) {
                    Ok(m) => {
                        let mut taken = ChatParser::new(MediaIndex::new());
                        std::mem::swap(&mut taken, self);
                        proof {
                            use_type_invariant(&taken);
                        }
                        let ChatParser { media, messages: mut msgs, lines: _ } = taken;
                        msgs.push(m);
                        assert(models(msgs@) =~= models(old_msgs).push(m@));
                        assert(ids_well_formed(msgs@)) by {
                            assert forall|i: int| 0 <= i < msgs@.len() implies is_random_uuid_text(
                                #[trigger] msgs@[i].id@,
                            ) by {
                                if i < old_msgs.len() {
                                    assert(msgs@[i] == old_msgs[i]);
                                }
                            }
                        }
                        *self = ChatParser { media, messages: msgs, lines: Ghost(new_lines) };
                        Ok(LineEffect::Started)
                    },
                    Err(e) => Err(e),
                }
            },
            None => {
                if self.messages.len() > 0 {
                    let mut taken = ChatParser::new(MediaIndex::new());
                    std::mem::swap(&mut taken, self);
                    proof {
                        use_type_invariant(&taken);
                    }
                    let ChatParser { media, messages: mut msgs, lines: _ } = taken;
                    let mut last = msgs.pop().unwrap();
                    assert(last == old_msgs.last());
                    last.text.push('\n');
                    push_chars(&mut last.text, &line);
                    assert(last.text@ =~= old_msgs.last().text@ + seq!['\n'] + line@);
                    assert(last@ == continued(old_msgs.last()@, line@));
                    msgs.push(last);
                    assert(msgs@ == old_msgs.update(old_msgs.len() - 1, last));
                    assert(models(msgs@) =~= models(old_msgs).update(
                        old_msgs.len() - 1,
                        continued(models(old_msgs).last(), line@),
                    ));
                    assert(ids_well_formed(msgs@)) by {
                        assert forall|i: int| 0 <= i < msgs@.len() implies is_random_uuid_text(
                            #[trigger] msgs@[i].id@,
                        ) by {
                            assert(old_msgs[i].id == msgs@[i].id);
                        }
                    }
                    *self = ChatParser { media, messages: msgs, lines: Ghost(new_lines) };
                    Ok(LineEffect::Continued)
                } else {
                    self.lines = Ghost(new_lines);
                    Ok(LineEffect::Ignored)
                }
            },
        }
    }

    /// The number of messages read so far.
    pub fn message_count(&self) -> (n: usize)
        ensures
            n == self.messages_model().len(),
    {
        self.messages.len()
    }

    /// The messages read so far: those of the lines read.
    pub fn messages(&self) -> (r: &Vec<ParsedMessage>)
        ensures
            models(r@) == self.messages_model(),
            parse_lines(self.lines_read(), self.media()) == Ok::<Seq<MessageModel>, ImportError>(
                models(r@),
            ),
            ids_well_formed(r@),
    {
        proof {
            use_type_invariant(self);
        }
        &self.messages
    }

    /// The messages read, giving up the parser.
    pub fn into_messages(self) -> (r: Vec<ParsedMessage>)
        ensures
            models(r@) == self.messages_model(),
            parse_lines(self.lines_read(), self.media()) == Ok::<Seq<MessageModel>, ImportError>(
                models(r@),
            ),
            ids_well_formed(r@),
    {
        proof {
            use_type_invariant(&self);
        }
        self.messages
    }
}

/// The views of a list of lines.
pub open spec fn line_views(lines: Seq<String>) -> Seq<Seq<char>> {
    lines.map_values(|l: String| l@)
}

/// Once a prefix of the lines fails, the whole export fails the same way.
pub proof fn lemma_parse_error_persists(
    lines: Seq<Seq<char>>,
    media: Map<Seq<char>, Seq<char>>,
    j: int,
    e: ImportError,
)
    requires
        0 <= j <= lines.len(),
        parse_lines(lines.take(j), media) == Err::<Seq<MessageModel>, ImportError>(e),
    ensures
        parse_lines(lines, media) == Err::<Seq<MessageModel>, ImportError>(e),
    decreases lines.len() - j,
{
    if j < lines.len() {
        assert(lines.take(j + 1).drop_last() =~= lines.take(j));
        lemma_parse_error_persists(lines, media, j + 1, e);
    } else {
        assert(lines.take(j) =~= lines);
    }
}

/// Reads a whole export, given as its lines.
pub fn parse_chat(lines: &Vec<String>, media: MediaIndex) -> (r: Result<
    Vec<ParsedMessage>,
    ImportError,
>)
    ensures
        match parse_lines(line_views(lines@), media@) {
            Ok(msgs) => r matches Ok(v) && models(v@) == msgs && ids_well_formed(v@),
            Err(e) => r == Err::<Vec<ParsedMessage>, ImportError>(e),
        },
{
    let ghost all = line_views(lines@);
    let ghost m = media@;
    let mut parser = ChatParser::new(media);
    let mut i: usize = 0;
    assert(all.take(0) =~= Seq::<Seq<char>>::empty());
    while i < lines.len()
        invariant
            i <= lines.len(),
            all == line_views(lines@),
            m == media@,
            parser.media() == m,
            parse_lines(all.take(i as int), m) == Ok::<Seq<MessageModel>, ImportError>(
                parser.messages_model(),
            ),
        decreases lines.len() - i,
    {
        assert(all.take(i + 1).drop_last() =~= all.take(i as int));
        assert(all.take(i + 1).last() == lines@[i as int]@);
        let ghost before = parser.messages_model();
        match parser.push_line(lines[i].as_str()) {
            Ok(_) => {},
            Err(e) => {
                proof {
                    assert(apply_line(before, m, lines@[i as int]@) == Err::<
                        Seq<MessageModel>,
                        ImportError,
                    >(e));
                    assert(parse_lines(all.take(i + 1), m) == Err::<Seq<MessageModel>, ImportError>(
                        e,
                    ));
                    lemma_parse_error_persists(all, m, i + 1, e);
                }
                return Err(e);
            },
        }
        i += 1;
    }
    assert(all.take(lines.len() as int) =~= all);
    Ok(parser.into_messages())
}

/// A raw line that starts a message.
pub open spec fn opens_message(raw: Seq<char>) -> bool {
    let line = strip_format_chars(raw);
    !is_blank(line) && split_header(line) is Some
}

/// The number of lines that start a message.
pub open spec fn count_opening(lines: Seq<Seq<char>>) -> int
    decreases lines.len(),
{
    if lines.len() == 0 {
        0
    } else {
        count_opening(lines.drop_last()) + if opens_message(lines.last()) {
            1int
        } else {
            0int
        }
    }
}

/// An export yields exactly one message per line that opens with a
/// timestamp; every other line is blank or continues a message.
pub proof fn law_one_message_per_header(lines: Seq<Seq<char>>, media: Map<Seq<char>, Seq<char>>)
    ensures
        parse_lines(lines, media) matches Ok(msgs) ==> msgs.len() == count_opening(lines),
    decreases lines.len(),
{
    if lines.len() > 0 {
        law_one_message_per_header(lines.drop_last(), media);
    }
}

/// What every message read from an export satisfies: system notices and only
/// they have the system kind, and they have the system sender and carry no
/// attachment; a person's name is no system notice and holds no colon; deleted
/// messages and only they have the deleted kind; a message has a media path
/// exactly when its kind is a media kind, and then the path is the one the
/// index records under the file name of the announced attachment, whose name
/// also fixes the kind.
pub open spec fn message_well_formed(m: MessageModel, media: Map<Seq<char>, Seq<char>>) -> bool {
    &&& m.system <==> m.kind == MessageKind::System
    &&& m.system ==> (m.sender == system_sender() && m.media_filename is None && !m.deleted)
    &&& m.deleted <==> m.kind == MessageKind::Deleted
    &&& m.media_path is Some <==> m.kind.is_attachment_kind()
    &&& m.media_path is Some ==> (m.media_filename matches Some(f) && attachment_file_name(f) matches Some(
        n,
    ) && media.contains_key(n) && m.media_path == Some(media[n]) && m.kind == media_kind(f))
    &&& m.media_filename is Some ==> (m.kind.is_attachment_kind() || m.kind
        == MessageKind::MediaOmitted)
    &&& !m.system ==> (!is_system_sender(m.sender) && forall|k: int|
        0 <= k < m.sender.len() ==> m.sender[k] != ':')
}

proof fn lemma_media_kind_is_attachment(f: Seq<char>)
    ensures
        media_kind(f).is_attachment_kind(),
{
}

proof fn lemma_header_message_well_formed(
    ts: Seq<char>,
    rest: Seq<char>,
    media: Map<Seq<char>, Seq<char>>,
)
    ensures
        header_message(ts, rest, media) matches Ok(m) ==> message_well_formed(m, media),
{
    reveal_strlit("מערכת");
    if let Some((name, text)) = split_sender(rest) {
        if !is_system_sender(trim(name)) {
            let (a, c, t) = sender_bounds(rest).unwrap();
            lemma_find_char_sound(rest, ':');
            lemma_space_run_nonneg(rest, 1);
            assert(find_char(rest, ':') == Some(c));
            assert(0 <= c < rest.len() && rest[c] == ':');
            assert(0 <= a <= c);
            assert(name == rest.subrange(a, c));
            assert forall|k: int| 0 <= k < name.len() implies name[k] != ':' by {
                assert(name[k] == rest[a + k]);
            }
            lemma_trim_keeps_absent(name, ':');
            let t = trim(remove_all(text, edit_marker()));
            if let Some(f) = find_attachment(t) {
                lemma_media_kind_is_attachment(f);
            }
        }
    }
}

/// Every message read from an export is well formed.
pub proof fn law_messages_well_formed(lines: Seq<Seq<char>>, media: Map<Seq<char>, Seq<char>>)
    ensures
        parse_lines(lines, media) matches Ok(msgs) ==> forall|i: int|
            0 <= i < msgs.len() ==> message_well_formed(#[trigger] msgs[i], media),
    decreases lines.len(),
{
    if lines.len() > 0 {
        let init = lines.drop_last();
        law_messages_well_formed(init, media);
        if let Ok(before) = parse_lines(init, media) {
            let line = strip_format_chars(lines.last());
            if !is_blank(line) {
                if let Some((ts, rest)) = split_header(line) {
                    lemma_header_message_well_formed(ts, rest, media);
                    if let Ok(m) = header_message(ts, rest, media) {
                        let after = before.push(m);
                        assert forall|i: int| 0 <= i < after.len() implies message_well_formed(
                            #[trigger] after[i],
                            media,
                        ) by {
                            if i < before.len() {
                                assert(after[i] == before[i]);
                            }
                        }
                    }
                } else if before.len() > 0 {
                    let after = before.update(before.len() - 1, continued(before.last(), line));
                    assert forall|i: int| 0 <= i < after.len() implies message_well_formed(
                        #[trigger] after[i],
                        media,
                    ) by {
                        if i < before.len() - 1 {
                            assert(after[i] == before[i]);
                        } else {
                            assert(message_well_formed(before[before.len() - 1], media));
                        }
                    }
                }
            }
        }
    }
}

/// A message only ever points at a file that the import recorded: every media
/// path is a path of the index.
pub proof fn law_media_paths_from_index(lines: Seq<Seq<char>>, media: Map<Seq<char>, Seq<char>>)
    ensures
        parse_lines(lines, media) matches Ok(msgs) ==> forall|i: int|
            0 <= i < msgs.len() && (#[trigger] msgs[i]).media_path is Some ==> exists|n: Seq<char>|
                media.contains_key(n) && msgs[i].media_path == Some(media[n]),
{
    law_messages_well_formed(lines, media);
    if let Ok(msgs) = parse_lines(lines, media) {
        assert forall|i: int|
            0 <= i < msgs.len() && (#[trigger] msgs[i]).media_path is Some implies exists|n: Seq<char>|
                media.contains_key(n) && msgs[i].media_path == Some(media[n]) by {
            assert(message_well_formed(msgs[i], media));
            let n = attachment_file_name(msgs[i].media_filename.unwrap()).unwrap();
            assert(media.contains_key(n) && msgs[i].media_path == Some(media[n]));
        }
    }
}

/// Removing the formatting characters of a line twice is removing them once.
pub proof fn lemma_strip_format_chars_idempotent(s: Seq<char>)
    ensures
        strip_format_chars(strip_format_chars(s)) == strip_format_chars(s),
    decreases s.len(),
{
    if s.len() > 0 {
        lemma_strip_format_chars_idempotent(s.drop_last());
        let init = strip_format_chars(s.drop_last());
        if !crate::line_format::is_format_char(s.last()) {
            let t = init.push(s.last());
            assert(t.drop_last() =~= init);
        }
    }
}

/// Invisible formatting characters (direction marks, isolates, the byte order
/// mark, carriage returns) never change how a line is read.
pub proof fn law_format_chars_invisible(
    msgs: Seq<MessageModel>,
    media: Map<Seq<char>, Seq<char>>,
    raw: Seq<char>,
)
    ensures
        apply_line(msgs, media, strip_format_chars(raw)) == apply_line(msgs, media, raw),
{
    lemma_strip_format_chars_idempotent(raw);
}

/// Blank lines change nothing.
pub proof fn law_blank_lines_ignored(
    msgs: Seq<MessageModel>,
    media: Map<Seq<char>, Seq<char>>,
    raw: Seq<char>,
)
    requires
        is_blank(strip_format_chars(raw)),
    ensures
        apply_line(msgs, media, raw) == Ok::<Seq<MessageModel>, ImportError>(msgs),
{
}

/// A line that does not start a message adds no message: it extends the text
/// of the last message (after a line feed) and leaves everything else of it
/// as it was; before the first message it is dropped.
pub proof fn law_continuation_extends_last(
    msgs: Seq<MessageModel>,
    media: Map<Seq<char>, Seq<char>>,
    raw: Seq<char>,
)
    requires
        !opens_message(raw),
    ensures
        apply_line(msgs, media, raw) matches Ok(after) && after.len() == msgs.len() && (
        msgs.len() > 0 ==> after.last().text == msgs.last().text + (if is_blank(
            strip_format_chars(raw),
        ) {
            Seq::empty()
        } else {
            seq!['\n'] + strip_format_chars(raw)
        }) && after.last().timestamp == msgs.last().timestamp && after.last().kind
            == msgs.last().kind) && forall|i: int|
            0 <= i < msgs.len() - 1 ==> after[i] == msgs[i],
{
    if msgs.len() > 0 && is_blank(strip_format_chars(raw)) {
        assert(msgs.last().text + Seq::<char>::empty() =~= msgs.last().text);
    }
}

/// A person's message whose text, once the edit marker is taken out and the
/// white space trimmed, holds one of the deletion phrases `ההודעה נמחקה`,
/// `הודעה זו נמחקה` or `ההודעה הזאת נמחקה` is read as deleted: kind
/// `Deleted`, the deleted flag set, its text kept and no attachment.
pub proof fn law_deletion_notice_read_as_deleted(
    ts: Seq<char>,
    sender: Seq<char>,
    raw_text: Seq<char>,
    media: Map<Seq<char>, Seq<char>>,
)
    requires
        contains(trim(remove_all(raw_text, edit_marker())), "ההודעה נמחקה"@) || contains(
            trim(remove_all(raw_text, edit_marker())),
            "הודעה זו נמחקה"@,
        ) || contains(trim(remove_all(raw_text, edit_marker())), "ההודעה הזאת נמחקה"@),
    ensures
        user_message(ts, sender, raw_text, media) == Ok::<MessageModel, ImportError>(
            MessageModel {
                timestamp: ts,
                sender: sender,
                kind: MessageKind::Deleted,
                text: trim(remove_all(raw_text, edit_marker())),
                media_filename: None,
                media_path: None,
                system: false,
                deleted: true,
            },
        ),
{
    law_deletion_phrases(trim(remove_all(raw_text, edit_marker())));
}

/// A person's message whose cleaned text holds no deletion phrase but one of
/// the phrases `<Media omitted>`, `<המדיה לא נכללה>`, `התמונה הושמטה`,
/// `הסרטון הושמט` or `הקובץ הושמט` is read as media omitted, not deleted, with
/// its text kept and no attachment.
pub proof fn law_omitted_notice_read_as_media_omitted(
    ts: Seq<char>,
    sender: Seq<char>,
    raw_text: Seq<char>,
    media: Map<Seq<char>, Seq<char>>,
)
    requires
        !contains(trim(remove_all(raw_text, edit_marker())), "ההודעה נמחקה"@),
        !contains(trim(remove_all(raw_text, edit_marker())), "הודעה זו נמחקה"@),
        !contains(trim(remove_all(raw_text, edit_marker())), "ההודעה הזאת נמחקה"@),
        contains(trim(remove_all(raw_text, edit_marker())), "<Media omitted>"@) || contains(
            trim(remove_all(raw_text, edit_marker())),
            "<המדיה לא נכללה>"@,
        ) || contains(trim(remove_all(raw_text, edit_marker())), "התמונה הושמטה"@) || contains(
            trim(remove_all(raw_text, edit_marker())),
            "הסרטון הושמט"@,
        ) || contains(trim(remove_all(raw_text, edit_marker())), "הקובץ הושמט"@),
    ensures
        user_message(ts, sender, raw_text, media) == Ok::<MessageModel, ImportError>(
            MessageModel {
                timestamp: ts,
                sender: sender,
                kind: MessageKind::MediaOmitted,
                text: trim(remove_all(raw_text, edit_marker())),
                media_filename: None,
                media_path: None,
                system: false,
                deleted: false,
            },
        ),
{
    law_deletion_phrases(trim(remove_all(raw_text, edit_marker())));
    law_media_omitted_phrases(trim(remove_all(raw_text, edit_marker())));
}

/// The message a header line starts, from the rest of the line. When the rest
/// is `name: text`, with a name that has no colon, does not open with `~` and
/// has no white space at its ends, it is that person's message with that
/// text, unless the name is a system notice; then, and when the rest has no
/// colon at all, it is a system message whose text is the whole rest, from
/// the system sender.
pub proof fn law_header_message_sender(
    ts: Seq<char>,
    name: Seq<char>,
    text: Seq<char>,
    rest: Seq<char>,
    media: Map<Seq<char>, Seq<char>>,
)
    requires
        name.len() > 0,
        forall|k: int| 0 <= k < name.len() ==> name[k] != ':',
        name[0] != '~',
        !is_white_space(name[0]),
        !is_white_space(name.last()),
        newline_free(text),
    ensures
        !is_system_sender(name) ==> header_message(ts, name + ": "@ + text, media) == user_message(
            ts,
            name,
            text,
            media,
        ),
        is_system_sender(name) ==> header_message(ts, name + ": "@ + text, media) == Ok::<
            MessageModel,
            ImportError,
        >(
            MessageModel {
                timestamp: ts,
                sender: "מערכת"@,
                kind: MessageKind::System,
                text: name + ": "@ + text,
                media_filename: None,
                media_path: None,
                system: true,
                deleted: false,
            },
        ),
        (forall|k: int| 0 <= k < rest.len() ==> rest[k] != ':') ==> header_message(ts, rest, media)
            == Ok::<MessageModel, ImportError>(
            MessageModel {
                timestamp: ts,
                sender: "מערכת"@,
                kind: MessageKind::System,
                text: rest,
                media_filename: None,
                media_path: None,
                system: true,
                deleted: false,
            },
        ),
{
    law_sender_split(name, text, rest);
    lemma_trim_plain(name);
}

} // verus!
