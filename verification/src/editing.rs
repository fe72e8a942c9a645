//! Local edits, deletions and restorations of a stored message. The text a
//! message was imported with and its type are never changed, so restoring
//! always gives back the message as imported, including a deletion that the
//! export itself recorded.
use vstd::prelude::*;
use crate::classify::MessageKind;
use crate::parser::{message_well_formed, opt_view, MessageModel};

verus! {

/// The editable state of a stored message, with the type it was imported
/// with.
pub struct StoredMessage {
    pub msg_type: String,
    pub text: Option<String>,
    pub original_text: Option<String>,
    pub edited: bool,
    pub deleted: bool,
}

/// The model of a stored message's editable state.
pub struct StoredModel {
    pub msg_type: Seq<char>,
    pub text: Option<Seq<char>>,
    pub original_text: Option<Seq<char>>,
    pub edited: bool,
    pub deleted: bool,
}

impl View for StoredMessage {
    type V = StoredModel;

    open spec fn view(&self) -> StoredModel {
        StoredModel {
            msg_type: self.msg_type@,
            text: opt_view(self.text),
            original_text: opt_view(self.original_text),
            edited: self.edited,
            deleted: self.deleted,
        }
    }
}

/// A text column read as a string: a missing value reads as empty.
pub open spec fn text_or_empty(t: Option<Seq<char>>) -> Seq<char> {
    match t {
        Some(s) => s,
        None => Seq::empty(),
    }
}

/// The state after editing the text to `new_text`.
pub open spec fn edited(m: StoredModel, new_text: Seq<char>) -> StoredModel {
    StoredModel { text: Some(new_text), edited: true, ..m }
}

/// The state after deleting the message.
pub open spec fn deleted(m: StoredModel) -> StoredModel {
    StoredModel { deleted: true, ..m }
}

/// The export itself marked the message as deleted: it was imported with the
/// `deleted` type.
pub open spec fn deleted_in_export(m: StoredModel) -> bool {
    m.msg_type == MessageKind::Deleted.label()
}

/// The state after restoring the message: its imported text, no edit, and
/// deleted only when the export had it deleted.
pub open spec fn restored(m: StoredModel) -> StoredModel {
    StoredModel { text: m.original_text, edited: false, deleted: deleted_in_export(m), ..m }
}

/// The state of a message as an import stores it: its text is the imported
/// text, it is not edited, and it is deleted exactly when the export says so.
pub open spec fn freshly_imported(m: StoredModel) -> bool {
    m.text == m.original_text && !m.edited && m.deleted == deleted_in_export(m)
}

/// The entry written to the edit log.
pub struct EditRecord {
    pub old_text: String,
    pub new_text: String,
}

fn text_or_empty_exec(t: &Option<String>) -> (r: String)
    ensures
        r@ == text_or_empty(opt_view(*t)),
{
    match t {
        Some(s) => s.clone(),
        None => String::new(),
    }
}

/// Editing a message: its new state (`None` when no such message is stored)
/// and the log entry, which records the text before the edit.
pub fn edit_message_effect(current: Option<StoredMessage>, new_text: String) -> (r: (
    Option<StoredMessage>,
    EditRecord,
))
    ensures
        r.1.new_text@ == new_text@,
        match current {
            Some(m) => {
                &&& r.1.old_text@ == text_or_empty(m@.text)
                &&& r.0 matches Some(n) && n@ == edited(m@, new_text@)
            },
            None => r.1.old_text@ == Seq::<char>::empty() && r.0 is None,
        },
{
    match current {
        Some(m) => {
            let old_text = text_or_empty_exec(&m.text);
            let next = StoredMessage {
                msg_type: m.msg_type,
                text: Some(new_text.clone()),
                original_text: m.original_text,
                edited: true,
                deleted: m.deleted,
            };
            (Some(next), EditRecord { old_text, new_text })
        },
        None => (None, EditRecord { old_text: String::new(), new_text }),
    }
}

/// Deleting a message: its new state (`None` when no such message is stored)
/// and the original text to keep beside the deletion.
pub fn delete_message_effect(current: Option<StoredMessage>) -> (r: (Option<StoredMessage>, String))
    ensures
        match current {
            Some(m) => {
                &&& r.1@ == text_or_empty(m@.original_text)
                &&& r.0 matches Some(n) && n@ == deleted(m@)
            },
            None => r.1@ == Seq::<char>::empty() && r.0 is None,
        },
{
    match current {
        Some(m) => {
            let kept = text_or_empty_exec(&m.original_text);
            let next = StoredMessage {
                msg_type: m.msg_type,
                text: m.text,
                original_text: m.original_text,
                edited: m.edited,
                deleted: true,
            };
            (Some(next), kept)
        },
        None => (None, String::new()),
    }
}

/// Restoring a message: its new state (`None` when no such message is
/// stored).
pub fn restore_message_effect(current: Option<StoredMessage>) -> (r: Option<StoredMessage>)
    ensures
        match current {
            Some(m) => r matches Some(n) && n@ == restored(m@),
            None => r is None,
        },
{
    match current {
        Some(m) => {
            let text = match &m.original_text {
                Some(t) => Some(t.clone()),
                None => None,
            };
            let deleted_label = MessageKind::Deleted.label_string();
            let deleted = m.msg_type == deleted_label;
            Some(
                StoredMessage {
                    msg_type: m.msg_type,
                    text,
                    original_text: m.original_text,
                    edited: false,
                    deleted,
                },
            )
        },
        None => None,
    }
}

/// What each operation does to a stored message, field by field. An edit
/// shows the new text and marks the message edited; a deletion only sets the
/// deleted flag; a restore shows the original text again, clears the edited
/// flag, and leaves the message deleted only when its type is `deleted`. None
/// of them changes the type or the original text.
pub proof fn law_operation_effects(m: StoredModel, new_text: Seq<char>)
    ensures
        edited(m, new_text).text == Some(new_text),
        edited(m, new_text).edited,
        edited(m, new_text).deleted == m.deleted,
        edited(m, new_text).original_text == m.original_text,
        edited(m, new_text).msg_type == m.msg_type,
        deleted(m).deleted,
        deleted(m).text == m.text,
        deleted(m).edited == m.edited,
        deleted(m).original_text == m.original_text,
        deleted(m).msg_type == m.msg_type,
        restored(m).text == m.original_text,
        !restored(m).edited,
        restored(m).deleted <==> m.msg_type == "deleted"@,
        restored(m).original_text == m.original_text,
        restored(m).msg_type == m.msg_type,
{
    reveal_strlit("deleted");
}

/// Restoring undoes an edit: a message edited and then restored is the
/// message restored without the edit.
pub proof fn law_restore_undoes_edit(m: StoredModel, new_text: Seq<char>)
    ensures
        restored(edited(m, new_text)) == restored(m),
{
}

/// Restoring undoes a deletion.
pub proof fn law_restore_undoes_delete(m: StoredModel)
    ensures
        restored(deleted(m)) == restored(m),
{
}

/// Edits and deletions never touch the original text, and a deletion keeps
/// the current text.
pub proof fn law_original_text_preserved(m: StoredModel, new_text: Seq<char>)
    ensures
        edited(m, new_text).original_text == m.original_text,
        deleted(m).original_text == m.original_text,
        deleted(m).text == m.text,
        restored(m).original_text == m.original_text,
{
}

/// After restoring, a message shows its original text, unedited, deleted
/// only when the export had it deleted; restoring again changes nothing, and
/// no operation changes the message's type.
pub proof fn law_restore_gives_original(m: StoredModel, new_text: Seq<char>)
    ensures
        restored(m).text == m.original_text,
        !restored(m).edited,
        restored(m).deleted == deleted_in_export(m),
        restored(restored(m)) == restored(m),
        restored(m).msg_type == m.msg_type,
        edited(m, new_text).msg_type == m.msg_type,
        deleted(m).msg_type == m.msg_type,
{
}

/// Any sequence of edits and deletions followed by a restore brings a message
/// as imported, including one that the export marked as deleted, back to its
/// imported state.
pub proof fn law_restore_returns_to_import(m: StoredModel, ops: Seq<Option<Seq<char>>>)
    requires
        freshly_imported(m),
    ensures
        restored(apply_ops(m, ops)) == m,
    decreases ops.len(),
{
    if ops.len() > 0 {
        law_restore_returns_to_import(m, ops.drop_last());
        lemma_ops_keep_original(m, ops.drop_last());
    }
}

/// The stored state that an import writes for a message read from an export:
/// its type's label, its text as both the current and the original text, not
/// edited, and deleted as the export says.
pub open spec fn as_imported(m: MessageModel) -> StoredModel {
    StoredModel {
        msg_type: m.kind.label(),
        text: Some(m.text),
        original_text: Some(m.text),
        edited: false,
        deleted: m.deleted,
    }
}

proof fn lemma_deleted_label(k: MessageKind)
    ensures
        k.label() == MessageKind::Deleted.label() <==> k == MessageKind::Deleted,
{
    reveal_strlit("system");
    reveal_strlit("text");
    reveal_strlit("deleted");
    reveal_strlit("media_omitted");
    reveal_strlit("image");
    reveal_strlit("video");
    reveal_strlit("sticker");
    reveal_strlit("audio");
    reveal_strlit("document");
    reveal_strlit("media");
    let d = MessageKind::Deleted.label();
    match k {
        MessageKind::Deleted => {},
        MessageKind::Sticker => assert(k.label()[0] != d[0]),
        _ => assert(k.label().len() != d.len()),
    }
}

/// Every message read from an export is stored as imported, and any edits and
/// deletions followed by a restore give that stored state back, also for a
/// message that the export itself marked as deleted.
pub proof fn law_imported_message_restorable(
    m: MessageModel,
    media: Map<Seq<char>, Seq<char>>,
    ops: Seq<Option<Seq<char>>>,
)
    requires
        message_well_formed(m, media),
    ensures
        freshly_imported(as_imported(m)),
        restored(apply_ops(as_imported(m), ops)) == as_imported(m),
{
    lemma_deleted_label(m.kind);
    law_restore_returns_to_import(as_imported(m), ops);
}

/// Applies edits (`Some(text)`) and deletions (`None`) in order.
pub open spec fn apply_ops(m: StoredModel, ops: Seq<Option<Seq<char>>>) -> StoredModel
    decreases ops.len(),
{
    if ops.len() == 0 {
        m
    } else {
        let before = apply_ops(m, ops.drop_last());
        match ops.last() {
            Some(t) => edited(before, t),
            None => deleted(before),
        }
    }
}

proof fn lemma_ops_keep_original(m: StoredModel, ops: Seq<Option<Seq<char>>>)
    ensures
        apply_ops(m, ops).original_text == m.original_text,
        apply_ops(m, ops).msg_type == m.msg_type,
    decreases ops.len(),
{
    if ops.len() > 0 {
        lemma_ops_keep_original(m, ops.drop_last());
    }
}

/// The number of a chat's messages stored with type `label`.
pub open spec fn count_of_type(msgs: Seq<StoredModel>, label: Seq<char>) -> int
    decreases msgs.len(),
{
    if msgs.len() == 0 {
        0
    } else {
        count_of_type(msgs.drop_last(), label) + if msgs.last().msg_type == label {
            1int
        } else {
            0int
        }
    }
}

/// The number of a chat's messages flagged as deleted.
pub open spec fn count_deleted(msgs: Seq<StoredModel>) -> int
    decreases msgs.len(),
{
    if msgs.len() == 0 {
        0
    } else {
        count_deleted(msgs.drop_last()) + if msgs.last().deleted {
            1int
        } else {
            0int
        }
    }
}

/// Deleting a message changes only the deleted count of its chat: the number
/// of messages and the number of each type stay, and the deleted count grows
/// by one (the statistics count messages by type and by the deleted flag).
pub proof fn law_delete_changes_only_deleted_count(msgs: Seq<StoredModel>, j: int)
    requires
        0 <= j < msgs.len(),
        !msgs[j].deleted,
    ensures
        msgs.update(j, deleted(msgs[j])).len() == msgs.len(),
        forall|label: Seq<char>|
            #[trigger] count_of_type(msgs.update(j, deleted(msgs[j])), label) == count_of_type(
                msgs,
                label,
            ),
        count_deleted(msgs.update(j, deleted(msgs[j]))) == count_deleted(msgs) + 1,
    decreases msgs.len(),
{
    let after = msgs.update(j, deleted(msgs[j]));
    if j == msgs.len() - 1 {
        assert(after.drop_last() =~= msgs.drop_last());
    } else {
        let init = msgs.drop_last();
        law_delete_changes_only_deleted_count(init, j);
        assert(after.drop_last() =~= init.update(j, deleted(init[j])));
        assert(after.last() == msgs.last());
    }
    assert forall|label: Seq<char>|
        #[trigger] count_of_type(after, label) == count_of_type(msgs, label) by {
        if j < msgs.len() - 1 {
            let init = msgs.drop_last();
            assert(count_of_type(init.update(j, deleted(init[j])), label) == count_of_type(
                init,
                label,
            ));
        }
    }
}

} // verus!
