//! The values handed to the interface: chats, stored messages and per-chat
//! statistics.
use vstd::prelude::*;

verus! {

/// An imported chat.
pub struct Chat {
    pub id: String,
    pub name: String,
    pub created_at: String,
    pub message_count: i64,
}

/// A stored message.
pub struct Message {
    pub id: String,
    pub chat_id: String,
    pub timestamp: String,
    pub sender: String,
    pub msg_type: String,
    pub text: Option<String>,
    pub original_text: Option<String>,
    pub media_path: Option<String>,
    pub media_filename: Option<String>,
    pub media_mime_type: Option<String>,
    pub edited: bool,
    pub deleted: bool,
    pub system: bool,
}

/// Message counts of a chat.
pub struct ChatStats {
    pub total: i64,
    pub images: i64,
    pub videos: i64,
    pub audios: i64,
    pub documents: i64,
    pub stickers: i64,
    pub deleted: i64,
}

/// The sum of the counts of the rows whose type is `label`, or of all rows
/// for `None`.
pub open spec fn count_sum(rows: Seq<(Seq<char>, i64)>, label: Option<Seq<char>>) -> int
    decreases rows.len(),
{
    if rows.len() == 0 {
        0
    } else {
        count_sum(rows.drop_last(), label) + if label is None || Some(rows.last().0) == label {
            rows.last().1 as int
        } else {
            0
        }
    }
}

/// The type labels that the statistics count.
pub open spec fn counted_labels() -> Seq<Option<Seq<char>>> {
    seq![None, Some("image"@), Some("video"@), Some("audio"@), Some("document"@), Some("sticker"@)]
}

/// The entries of `counted_labels`, and the counted type labels are distinct.
proof fn lemma_counted_labels()
    ensures
        counted_labels()[0] == None::<Seq<char>>,
        counted_labels()[1] == Some("image"@),
        counted_labels()[2] == Some("video"@),
        counted_labels()[3] == Some("audio"@),
        counted_labels()[4] == Some("document"@),
        counted_labels()[5] == Some("sticker"@),
        "image"@ != "video"@,
        "image"@ != "audio"@,
        "image"@ != "document"@,
        "image"@ != "sticker"@,
        "video"@ != "audio"@,
        "video"@ != "document"@,
        "video"@ != "sticker"@,
        "audio"@ != "document"@,
        "audio"@ != "sticker"@,
        "document"@ != "sticker"@,
{
    reveal_strlit("image");
    reveal_strlit("video");
    reveal_strlit("audio");
    reveal_strlit("document");
    reveal_strlit("sticker");
    assert("image"@[0] != "video"@[0]);
    assert("image"@[0] != "audio"@[0]);
    assert("image"@[0] != "document"@[0]);
    assert("image"@[0] != "sticker"@[0]);
    assert("video"@[0] != "audio"@[0]);
    assert("video"@[0] != "document"@[0]);
    assert("video"@[0] != "sticker"@[0]);
    assert("audio"@[0] != "document"@[0]);
    assert("audio"@[0] != "sticker"@[0]);
    assert("document"@[0] != "sticker"@[0]);
}

/// Every running sum that `from_type_counts` computes fits in an `i64`.
pub open spec fn sums_fit(rows: Seq<(Seq<char>, i64)>) -> bool {
    forall|k: int, l: int|
        0 <= k <= rows.len() && 0 <= l < 6 ==> i64::MIN <= #[trigger] count_sum(
            rows.take(k),
            counted_labels()[l],
        ) <= i64::MAX
}

/// The sum of the five counted media types of the rows.
pub open spec fn media_sum(rows: Seq<(Seq<char>, i64)>) -> int {
    count_sum(rows, Some("image"@)) + count_sum(rows, Some("video"@)) + count_sum(
        rows,
        Some("audio"@),
    ) + count_sum(rows, Some("document"@)) + count_sum(rows, Some("sticker"@))
}

/// With row counts that are not negative, as counts of messages are, every
/// counted type has a count of at least zero, and the counted types together
/// have no more than the total.
pub proof fn law_stats_within_total(rows: Seq<(Seq<char>, i64)>)
    requires
        forall|i: int| 0 <= i < rows.len() ==> (#[trigger] rows[i]).1 >= 0,
    ensures
        0 <= count_sum(rows, Some("image"@)),
        0 <= count_sum(rows, Some("video"@)),
        0 <= count_sum(rows, Some("audio"@)),
        0 <= count_sum(rows, Some("document"@)),
        0 <= count_sum(rows, Some("sticker"@)),
        media_sum(rows) <= count_sum(rows, None),
    decreases rows.len(),
{
    if rows.len() > 0 {
        let init = rows.drop_last();
        assert forall|i: int| 0 <= i < init.len() implies (#[trigger] init[i]).1 >= 0 by {
            assert(init[i] == rows[i]);
        }
        law_stats_within_total(init);
        lemma_counted_labels();
        assert(rows[rows.len() - 1].1 >= 0);
    }
}

/// The view of `(type, count)` rows.
pub open spec fn row_views(rows: Seq<(String, i64)>) -> Seq<(Seq<char>, i64)> {
    rows.map_values(|r: (String, i64)| (r.0@, r.1))
}

/// The counts of `ChatStats`, in the order of `counted_labels`.
pub open spec fn stats_sums(rows: Seq<(Seq<char>, i64)>) -> Seq<int> {
    Seq::new(6, |l: int| count_sum(rows, counted_labels()[l]))
}

impl ChatStats {
    /// Statistics from the number of messages of each type: the total of all
    /// counts, and the counts of the `image`, `video`, `audio`, `document` and
    /// `sticker` types, added row by row; the deleted count is left at zero
    /// for the caller to fill in. `None` when one of these running sums leaves
    /// the range of `i64`.
    pub fn from_type_counts(rows: &Vec<(String, i64)>) -> (r: Option<ChatStats>)
        ensures
            r is Some <==> sums_fit(row_views(rows@)),
            r matches Some(s) ==> {
                &&& s.total == count_sum(row_views(rows@), None)
                &&& s.images == count_sum(row_views(rows@), Some("image"@))
                &&& s.videos == count_sum(row_views(rows@), Some("video"@))
                &&& s.audios == count_sum(row_views(rows@), Some("audio"@))
                &&& s.documents == count_sum(row_views(rows@), Some("document"@))
                &&& s.stickers == count_sum(row_views(rows@), Some("sticker"@))
                &&& s.deleted == 0
            },
    {
        let ghost v = row_views(rows@);
        let image = "image".to_owned();
        let video = "video".to_owned();
        let audio = "audio".to_owned();
        let document = "document".to_owned();
        let sticker = "sticker".to_owned();
        let mut sums: [i64; 6] = [0, 0, 0, 0, 0, 0];
        let mut i: usize = 0;
        assert(v.take(0) =~= Seq::<(Seq<char>, i64)>::empty());
        assert(forall|l: int| 0 <= l < 6 ==> sums@[l] == #[trigger] stats_sums(v.take(0))[l]);
        while i < rows.len()
            invariant
                i <= rows.len(),
                v == row_views(rows@),
                image@ == "image"@,
                video@ == "video"@,
                audio@ == "audio"@,
                document@ == "document"@,
                sticker@ == "sticker"@,
                forall|l: int| 0 <= l < 6 ==> sums@[l] == #[trigger] stats_sums(v.take(i as int))[l],
                forall|k: int, l: int|
                    0 <= k <= i && 0 <= l < 6 ==> i64::MIN <= #[trigger] count_sum(
                        v.take(k),
                        counted_labels()[l],
                    ) <= i64::MAX,
            decreases rows.len() - i,
        {
            proof {
                lemma_counted_labels();
            }
            let ghost before = v.take(i as int);
            let ghost next = v.take(i + 1);
            assert(next.drop_last() =~= before);
            assert(next.last() == (rows@[i as int].0@, rows@[i as int].1));
            assert(sums@[0] == stats_sums(before)[0]);
            assert(count_sum(next, None) == count_sum(before, None) + rows@[i as int].1);
            let msg_type = &rows[i].0;
            let count = rows[i].1;
            let slot: usize = if *msg_type == image {
                1
            } else if *msg_type == video {
                2
            } else if *msg_type == audio {
                3
            } else if *msg_type == document {
                4
            } else if *msg_type == sticker {
                5
            } else {
                0
            };
            assert forall|l: int| 0 <= l < 6 && l != 0 && l != slot implies count_sum(
                next,
                counted_labels()[l],
            ) == count_sum(before, counted_labels()[l]) by {}
            assert(slot != 0 ==> counted_labels()[slot as int] == Some(msg_type@));
            assert(slot != 0 ==> count_sum(next, counted_labels()[slot as int]) == count_sum(
                before,
                counted_labels()[slot as int],
            ) + count);
            assert(slot != 0 ==> sums@[slot as int] == stats_sums(before)[slot as int]);
            let ghost old_sums = sums@;
            match sums[0].checked_add(count) {
                Some(t) => {
                    sums[0] = t;
                },
                None => {
                    assert(!sums_fit(v)) by {
                        assert(count_sum(v.take(i + 1), counted_labels()[0]) > i64::MAX
                            || count_sum(v.take(i + 1), counted_labels()[0]) < i64::MIN);
                    }
                    return None;
                },
            }
            if slot != 0 {
                match sums[slot].checked_add(count) {
                    Some(t) => {
                        sums[slot] = t;
                    },
                    None => {
                        assert(!sums_fit(v)) by {
                            assert(count_sum(v.take(i + 1), counted_labels()[slot as int])
                                > i64::MAX || count_sum(
                                v.take(i + 1),
                                counted_labels()[slot as int],
                            ) < i64::MIN);
                        }
                        return None;
                    },
                }
            }
            assert forall|l: int| 0 <= l < 6 implies sums@[l] == #[trigger] stats_sums(next)[l] by {
                assert(stats_sums(next)[l] == count_sum(next, counted_labels()[l]));
                assert(old_sums[l] == stats_sums(v.take(i as int))[l]);
                assert(old_sums[l] == count_sum(before, counted_labels()[l]));
                if l != 0 && l != slot {
                    assert(sums@[l] == old_sums[l]);
                }
            }
            i += 1;
        }
        assert(v.take(rows.len() as int) =~= v);
        assert(sums_fit(v));
        assert(sums@[0] == stats_sums(v)[0]);
        assert(sums@[1] == stats_sums(v)[1]);
        assert(sums@[2] == stats_sums(v)[2]);
        assert(sums@[3] == stats_sums(v)[3]);
        assert(sums@[4] == stats_sums(v)[4]);
        assert(sums@[5] == stats_sums(v)[5]);
        proof {
            lemma_counted_labels();
        }
        Some(
            ChatStats {
                total: sums[0],
                images: sums[1],
                videos: sums[2],
                audios: sums[3],
                documents: sums[4],
                stickers: sums[5],
                deleted: 0,
            },
        )
    }
}

} // verus!
