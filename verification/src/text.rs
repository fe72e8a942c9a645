//! Character-level text operations on which the chat grammar is built.
//!
//! Text is modelled as `Seq<char>` (the view of `String`, `&str` and
//! `Vec<char>`); every executable routine here is proved equal to the spec
//! function of the same meaning.
use vstd::prelude::*;

verus! {

/// `String::push` appends one character.
pub assume_specification[ String::push ](s: &mut String, ch: char)
    ensures
        final(s)@ == old(s)@.push(ch),
;

/// Unicode `White_Space`: the set that `char::is_whitespace`, `str::trim`,
/// `str::split_whitespace` and the `\s` class of a Unicode regex all use.
pub open spec fn is_white_space(c: char) -> bool {
    let u = c as u32;
    (0x9 <= u && u <= 0xd) || u == 0x20 || u == 0x85 || u == 0xa0 || u == 0x1680 || (0x2000 <= u
        && u <= 0x200a) || u == 0x2028 || u == 0x2029 || u == 0x202f || u == 0x205f || u == 0x3000
}

/// The code point ranges of the Unicode 16.0 general category `Nd` (decimal
/// numbers), which is what `\d` denotes in a Unicode regular expression.
pub const DECIMAL_DIGIT_RANGES: [(u32, u32); 71] = [
    (0x30, 0x39),
    (0x660, 0x669),
    (0x6f0, 0x6f9),
    (0x7c0, 0x7c9),
    (0x966, 0x96f),
    (0x9e6, 0x9ef),
    (0xa66, 0xa6f),
    (0xae6, 0xaef),
    (0xb66, 0xb6f),
    (0xbe6, 0xbef),
    (0xc66, 0xc6f),
    (0xce6, 0xcef),
    (0xd66, 0xd6f),
    (0xde6, 0xdef),
    (0xe50, 0xe59),
    (0xed0, 0xed9),
    (0xf20, 0xf29),
    (0x1040, 0x1049),
    (0x1090, 0x1099),
    (0x17e0, 0x17e9),
    (0x1810, 0x1819),
    (0x1946, 0x194f),
    (0x19d0, 0x19d9),
    (0x1a80, 0x1a89),
    (0x1a90, 0x1a99),
    (0x1b50, 0x1b59),
    (0x1bb0, 0x1bb9),
    (0x1c40, 0x1c49),
    (0x1c50, 0x1c59),
    (0xa620, 0xa629),
    (0xa8d0, 0xa8d9),
    (0xa900, 0xa909),
    (0xa9d0, 0xa9d9),
    (0xa9f0, 0xa9f9),
    (0xaa50, 0xaa59),
    (0xabf0, 0xabf9),
    (0xff10, 0xff19),
    (0x104a0, 0x104a9),
    (0x10d30, 0x10d39),
    (0x10d40, 0x10d49),
    (0x11066, 0x1106f),
    (0x110f0, 0x110f9),
    (0x11136, 0x1113f),
    (0x111d0, 0x111d9),
    (0x112f0, 0x112f9),
    (0x11450, 0x11459),
    (0x114d0, 0x114d9),
    (0x11650, 0x11659),
    (0x116c0, 0x116c9),
    (0x116d0, 0x116e3),
    (0x11730, 0x11739),
    (0x118e0, 0x118e9),
    (0x11950, 0x11959),
    (0x11bf0, 0x11bf9),
    (0x11c50, 0x11c59),
    (0x11d50, 0x11d59),
    (0x11da0, 0x11da9),
    (0x11f50, 0x11f59),
    (0x16130, 0x16139),
    (0x16a60, 0x16a69),
    (0x16ac0, 0x16ac9),
    (0x16b50, 0x16b59),
    (0x16d70, 0x16d79),
    (0x1ccf0, 0x1ccf9),
    (0x1d7ce, 0x1d7ff),
    (0x1e140, 0x1e149),
    (0x1e2f0, 0x1e2f9),
    (0x1e4f0, 0x1e4f9),
    (0x1e5f1, 0x1e5fa),
    (0x1e950, 0x1e959),
    (0x1fbf0, 0x1fbf9),
];

/// Membership in Unicode `Nd`.
pub open spec fn is_decimal_digit(c: char) -> bool {
    exists|i: int|
        0 <= i < 71 && #[trigger] DECIMAL_DIGIT_RANGES@[i].0 <= c as u32 && c as u32
            <= DECIMAL_DIGIT_RANGES@[i].1
}

/// `Some(k)` as an integer position.
pub open spec fn as_int(o: Option<usize>) -> Option<int> {
    match o {
        Some(k) => Some(k as int),
        None => None,
    }
}

/// `p` occurs in `s` starting at position `i`.
pub open spec fn occurs_at(s: Seq<char>, p: Seq<char>, i: int) -> bool {
    0 <= i && i + p.len() <= s.len() && s.subrange(i, i + p.len()) == p
}

/// The first position at or after `i` where `p` occurs in `s`.
pub open spec fn find_from(s: Seq<char>, p: Seq<char>, i: int) -> Option<int>
    decreases s.len() + 1 - i,
{
    if i < 0 || i + p.len() > s.len() {
        None
    } else if occurs_at(s, p, i) {
        Some(i)
    } else {
        find_from(s, p, i + 1)
    }
}

/// The first position where `p` occurs in `s` (`str::find`).
pub open spec fn find(s: Seq<char>, p: Seq<char>) -> Option<int> {
    find_from(s, p, 0)
}

/// `s` holds `p` somewhere (`str::contains`).
pub open spec fn contains(s: Seq<char>, p: Seq<char>) -> bool {
    find(s, p) is Some
}

/// The first position of the character `c` in `s`.
pub open spec fn find_char(s: Seq<char>, c: char) -> Option<int> {
    find(s, seq![c])
}

/// `s` without its leading white space.
pub open spec fn trim_start(s: Seq<char>) -> Seq<char>
    decreases s.len(),
{
    if s.len() > 0 && is_white_space(s[0]) {
        trim_start(s.subrange(1, s.len() as int))
    } else {
        s
    }
}

/// `s` without its trailing white space.
pub open spec fn trim_end(s: Seq<char>) -> Seq<char>
    decreases s.len(),
{
    if s.len() > 0 && is_white_space(s.last()) {
        trim_end(s.drop_last())
    } else {
        s
    }
}

/// `s` without leading and trailing white space (`str::trim`).
pub open spec fn trim(s: Seq<char>) -> Seq<char> {
    trim_end(trim_start(s))
}

/// Every character of `s` is white space (`s.trim().is_empty()`).
pub open spec fn is_blank(s: Seq<char>) -> bool {
    forall|i: int| 0 <= i < s.len() ==> is_white_space(#[trigger] s[i])
}

/// `s` with every non-overlapping occurrence of `p`, taken from the left,
/// removed (`str::replace(p, "")`).
pub open spec fn remove_all(s: Seq<char>, p: Seq<char>) -> Seq<char>
    decreases s.len(),
{
    if p.len() == 0 || s.len() < p.len() {
        s
    } else if s.subrange(0, p.len() as int) == p {
        remove_all(s.subrange(p.len() as int, s.len() as int), p)
    } else {
        seq![s[0]] + remove_all(s.subrange(1, s.len() as int), p)
    }
}

/// The position just after the last white space character of `s`, or 0.
pub open spec fn word_start(s: Seq<char>) -> int
    decreases s.len(),
{
    if s.len() == 0 {
        0
    } else if is_white_space(s.last()) {
        s.len() as int
    } else {
        word_start(s.drop_last())
    }
}

/// The last white-space separated word of `s`, or the empty text when `s` is
/// blank (`s.split_whitespace().last().unwrap_or("")`).
pub open spec fn last_word(s: Seq<char>) -> Seq<char> {
    let t = trim_end(s);
    t.subrange(word_start(t), t.len() as int)
}

/// ASCII case folding of one character, as a code point.
pub open spec fn ascii_fold(c: char) -> u32 {
    let u = c as u32;
    if 65 <= u && u <= 90 {
        (u + 32) as u32
    } else {
        u
    }
}

/// `a` and `b` are equal up to ASCII case.
pub open spec fn eq_ignore_ascii_case(a: Seq<char>, b: Seq<char>) -> bool {
    a.len() == b.len() && forall|i: int| 0 <= i < a.len() ==> ascii_fold(#[trigger] a[i]) == ascii_fold(b[i])
}

/// `s` ends with `p` up to ASCII case.
///
/// For a lowercase ASCII pattern `p` without `k`, in which every `i` is
/// followed by another character of `p`, this is exactly
/// `s.to_lowercase().ends_with(p)`: besides the ASCII letters, the only
/// characters whose Unicode lowercase form holds an ASCII character are the
/// Kelvin sign (lowercase `k`) and the capital I with dot above (lowercase `i`
/// followed by a combining dot, never by an ASCII character).
pub open spec fn ends_with_ignore_ascii_case(s: Seq<char>, p: Seq<char>) -> bool {
    s.len() >= p.len() && eq_ignore_ascii_case(s.subrange(s.len() - p.len(), s.len() as int), p)
}

/// `s` starts with `p` up to ASCII case (see `ends_with_ignore_ascii_case`).
pub open spec fn starts_with_ignore_ascii_case(s: Seq<char>, p: Seq<char>) -> bool {
    s.len() >= p.len() && eq_ignore_ascii_case(s.subrange(0, p.len() as int), p)
}

/// Strings equal up to ASCII case end with the same patterns up to ASCII case.
pub proof fn lemma_ends_with_ignore_case_congruent(a: Seq<char>, b: Seq<char>, p: Seq<char>)
    requires
        eq_ignore_ascii_case(a, b),
    ensures
        ends_with_ignore_ascii_case(a, p) == ends_with_ignore_ascii_case(b, p),
{
    if a.len() >= p.len() {
        let k = a.len() - p.len();
        let sa = a.subrange(k, a.len() as int);
        let sb = b.subrange(k, b.len() as int);
        assert forall|i: int| 0 <= i < p.len() implies ascii_fold(#[trigger] sa[i]) == ascii_fold(
            sb[i],
        ) by {
            assert(sa[i] == a[k + i]);
            assert(sb[i] == b[k + i]);
        }
        if eq_ignore_ascii_case(sa, p) {
            assert forall|i: int| 0 <= i < sb.len() implies ascii_fold(#[trigger] sb[i])
                == ascii_fold(p[i]) by {
                assert(ascii_fold(sa[i]) == ascii_fold(p[i]));
            }
        }
        if eq_ignore_ascii_case(sb, p) {
            assert forall|i: int| 0 <= i < sa.len() implies ascii_fold(#[trigger] sa[i])
                == ascii_fold(p[i]) by {
                assert(ascii_fold(sb[i]) == ascii_fold(p[i]));
            }
        }
    }
}

/// The number of times `c` occurs in `s`.
pub open spec fn count_char(s: Seq<char>, c: char) -> nat
    decreases s.len(),
{
    if s.len() == 0 {
        0
    } else {
        count_char(s.drop_last(), c) + if s.last() == c {
            1nat
        } else {
            0nat
        }
    }
}

/// Counting a character is additive over concatenation.
pub proof fn lemma_count_concat(a: Seq<char>, b: Seq<char>, c: char)
    ensures
        count_char(a + b, c) == count_char(a, c) + count_char(b, c),
    decreases b.len(),
{
    if b.len() == 0 {
        assert(a + b =~= a);
    } else {
        lemma_count_concat(a, b.drop_last(), c);
        assert((a + b).drop_last() =~= a + b.drop_last());
    }
}

/// A part of `s` holds no more of `c` than `s` does.
pub proof fn lemma_count_subrange_le(s: Seq<char>, i: int, j: int, c: char)
    requires
        0 <= i <= j <= s.len(),
    ensures
        count_char(s.subrange(i, j), c) <= count_char(s, c),
{
    lemma_count_concat(s.subrange(0, i), s.subrange(i, j), c);
    lemma_count_concat(s.subrange(0, i) + s.subrange(i, j), s.subrange(j, s.len() as int), c);
    assert(s =~= s.subrange(0, i) + s.subrange(i, j) + s.subrange(j, s.len() as int));
}

/// A text without `c` counts none of it.
pub proof fn lemma_count_absent(s: Seq<char>, c: char)
    requires
        forall|i: int| 0 <= i < s.len() ==> s[i] != c,
    ensures
        count_char(s, c) == 0,
    decreases s.len(),
{
    if s.len() > 0 {
        lemma_count_absent(s.drop_last(), c);
    }
}

/// A text holding `c` at `i` counts it at least once.
pub proof fn lemma_count_present(s: Seq<char>, i: int, c: char)
    requires
        0 <= i < s.len(),
        s[i] == c,
    ensures
        count_char(s, c) >= 1,
{
    lemma_count_subrange_le(s, i, i + 1, c);
    let one = s.subrange(i, i + 1);
    assert(one.drop_last() =~= Seq::<char>::empty());
    assert(one.last() == c);
}

/// A pattern with more of some character than the text cannot occur in it,
/// so removing it changes nothing.
pub proof fn lemma_remove_all_absent_by_count(s: Seq<char>, p: Seq<char>, c: char)
    requires
        count_char(p, c) > count_char(s, c),
    ensures
        remove_all(s, p) == s,
    decreases s.len(),
{
    if p.len() == 0 {
        assert(count_char(p, c) == 0);
    } else if s.len() < p.len() {
    } else if s.subrange(0, p.len() as int) == p {
        lemma_count_subrange_le(s, 0, p.len() as int, c);
    } else {
        lemma_count_subrange_le(s, 1, s.len() as int, c);
        lemma_remove_all_absent_by_count(s.subrange(1, s.len() as int), p, c);
        assert(seq![s[0]] + s.subrange(1, s.len() as int) =~= s);
    }
}

/// Removing a pattern longer than the text changes nothing.
pub proof fn lemma_remove_all_longer(s: Seq<char>, p: Seq<char>)
    requires
        s.len() < p.len(),
    ensures
        remove_all(s, p) == s,
{
}

/// Removing a pattern of the text's length that differs from it changes
/// nothing.
pub proof fn lemma_remove_all_same_len(s: Seq<char>, p: Seq<char>)
    requires
        s.len() == p.len(),
        s != p,
    ensures
        remove_all(s, p) == s,
{
    if p.len() > 0 {
        assert(s.subrange(0, p.len() as int) =~= s);
        let rest = s.subrange(1, s.len() as int);
        lemma_remove_all_longer(rest, p);
        assert(seq![s[0]] + rest =~= s);
    } else {
        assert(s =~= p);
    }
}

/// Removing a text from itself leaves nothing, and nothing stays nothing.
pub proof fn lemma_remove_all_whole(p: Seq<char>, q: Seq<char>)
    ensures
        p.len() > 0 ==> remove_all(p, p) == Seq::<char>::empty(),
        remove_all(Seq::<char>::empty(), q) == Seq::<char>::empty(),
{
    if p.len() > 0 {
        assert(p.subrange(0, p.len() as int) =~= p);
        assert(p.subrange(p.len() as int, p.len() as int) =~= Seq::<char>::empty());
        lemma_remove_all_longer(Seq::<char>::empty(), p);
    }
}

/// Trimming nothing gives nothing.
pub proof fn lemma_trim_empty()
    ensures
        trim(Seq::<char>::empty()) == Seq::<char>::empty(),
{
}

/// If `s` ends with `p` up to ASCII case, its last two characters fold as
/// those of `p` do.
pub proof fn lemma_ends_last_two(s: Seq<char>, p: Seq<char>)
    requires
        p.len() >= 2,
    ensures
        ends_with_ignore_ascii_case(s, p) ==> (ascii_fold(s[s.len() - 1]) == ascii_fold(
            p[p.len() - 1],
        ) && ascii_fold(s[s.len() - 2]) == ascii_fold(p[p.len() - 2])),
{
    if ends_with_ignore_ascii_case(s, p) {
        let k = s.len() - p.len();
        let t = s.subrange(k, s.len() as int);
        assert(t[p.len() - 1] == s[s.len() - 1]);
        assert(t[p.len() - 2] == s[s.len() - 2]);
        assert(ascii_fold(t[p.len() - 1]) == ascii_fold(p[p.len() - 1]));
        assert(ascii_fold(t[p.len() - 2]) == ascii_fold(p[p.len() - 2]));
    }
}

/// When the first character of `p` stands in `s` only at position `k`, `p` is
/// found at `k` if it occurs there, and nowhere otherwise.
pub proof fn lemma_find_by_first_char(s: Seq<char>, p: Seq<char>, k: int)
    requires
        p.len() > 0,
        0 <= k,
        forall|j: int| 0 <= j < s.len() && j != k ==> s[j] != p[0],
    ensures
        find(s, p) == if occurs_at(s, p, k) {
            Some(k)
        } else {
            None::<int>
        },
{
    lemma_find_from_sound(s, p, 0);
    assert forall|j: int| 0 <= j && occurs_at(s, p, j) implies j == k by {
        assert(s.subrange(j, j + p.len())[0] == s[j]);
    }
}

/// A text whose ends are not white space is its own trim, and so is it with
/// one more space after it.
pub proof fn lemma_trim_plain(s: Seq<char>)
    requires
        s.len() > 0,
        !is_white_space(s[0]),
        !is_white_space(s.last()),
    ensures
        trim(s) == s,
        trim(s.push(' ')) == s,
{
    let t = s.push(' ');
    assert(t[0] == s[0]);
    assert(t.drop_last() =~= s);
}

/// The position after the last white space of a text without white space is
/// its start.
proof fn lemma_word_start_plain(s: Seq<char>)
    requires
        forall|k: int| 0 <= k < s.len() ==> !is_white_space(#[trigger] s[k]),
    ensures
        word_start(s) == 0,
    decreases s.len(),
{
    if s.len() > 0 {
        assert(!is_white_space(s[s.len() - 1]));
        lemma_word_start_plain(s.drop_last());
    }
}

/// A text without white space is its own last word.
pub proof fn lemma_last_word_plain(s: Seq<char>)
    requires
        forall|k: int| 0 <= k < s.len() ==> !is_white_space(#[trigger] s[k]),
    ensures
        last_word(s) == s,
{
    if s.len() > 0 {
        assert(!is_white_space(s[s.len() - 1]));
    }
    assert(trim_end(s) == s);
    lemma_word_start_plain(s);
    assert(s.subrange(0, s.len() as int) =~= s);
}

/// A pattern after a text that lacks its first character is removed, and
/// the text is kept.
pub proof fn lemma_remove_all_trailing(a: Seq<char>, p: Seq<char>)
    requires
        p.len() > 0,
        forall|k: int| 0 <= k < a.len() ==> a[k] != p[0],
    ensures
        remove_all(a + p, p) == a,
    decreases a.len(),
{
    let s = a + p;
    if a.len() == 0 {
        assert(s =~= p);
        lemma_remove_all_whole(p, p);
    } else {
        assert(s.subrange(0, p.len() as int)[0] == a[0]);
        let rest = a.subrange(1, a.len() as int);
        lemma_remove_all_trailing(rest, p);
        assert(s.subrange(1, s.len() as int) =~= rest + p);
        assert(seq![s[0]] + rest =~= a);
    }
}

/// `p` occurring at `k`, with its first character nowhere before `k`, is
/// found at `k`.
pub proof fn lemma_find_first(s: Seq<char>, p: Seq<char>, k: int)
    requires
        p.len() > 0,
        occurs_at(s, p, k),
        forall|j: int| 0 <= j < k ==> s[j] != p[0],
    ensures
        find(s, p) == Some(k),
{
    lemma_find_from_sound(s, p, 0);
    assert forall|j: int| 0 <= j < k implies !occurs_at(s, p, j) by {
        if occurs_at(s, p, j) {
            assert(s.subrange(j, j + p.len())[0] == s[j]);
        }
    }
}

/// Leading white space before a text that does not open with white space is
/// what trimming the start takes away.
pub proof fn lemma_trim_start_concat(x: Seq<char>, y: Seq<char>)
    requires
        y.len() > 0,
        !is_white_space(y[0]),
    ensures
        trim_start(x + y) == trim_start(x) + y,
    decreases x.len(),
{
    if x.len() == 0 {
        assert(x + y =~= y);
        assert(trim_start(x) + y =~= y);
    } else if is_white_space(x[0]) {
        let r = x.subrange(1, x.len() as int);
        lemma_trim_start_concat(r, y);
        assert((x + y).subrange(1, (x + y).len() as int) =~= r + y);
    } else {
        assert((x + y)[0] == x[0]);
    }
}

/// What trimming the start leaves is empty or ends as the text does.
pub proof fn lemma_trim_start_last(x: Seq<char>)
    ensures
        trim_start(x).len() > 0 ==> trim_start(x).last() == x.last(),
        trim_start(x).len() <= x.len(),
    decreases x.len(),
{
    if x.len() > 0 && is_white_space(x[0]) {
        let r = x.subrange(1, x.len() as int);
        lemma_trim_start_last(r);
        if r.len() > 0 {
            assert(r.last() == x.last());
        }
    }
}

/// Trimming white space only leaves nothing at the start, and nothing after
/// a text at its end.
pub proof fn lemma_trim_white(z: Seq<char>, w: Seq<char>)
    requires
        forall|k: int| 0 <= k < w.len() ==> is_white_space(#[trigger] w[k]),
    ensures
        trim_start(w) == Seq::<char>::empty(),
        trim_end(z + w) == trim_end(z),
    decreases w.len(),
{
    if w.len() > 0 {
        let r = w.subrange(1, w.len() as int);
        assert forall|k: int| 0 <= k < r.len() implies is_white_space(#[trigger] r[k]) by {
            assert(r[k] == w[k + 1]);
        }
        let d = w.drop_last();
        assert forall|k: int| 0 <= k < d.len() implies is_white_space(#[trigger] d[k]) by {
            assert(d[k] == w[k]);
        }
        lemma_trim_white(z, r);
        lemma_trim_white(z, d);
        assert(is_white_space(w[0]));
        assert(is_white_space(w[w.len() - 1]));
        assert((z + w).drop_last() =~= z + d);
    } else {
        assert(z + w =~= z);
    }
}

/// The last word of a text that ends with a word without white space, after
/// white space or nothing, is that word.
pub proof fn lemma_word_start_after(w: Seq<char>, f: Seq<char>)
    requires
        forall|k: int| 0 <= k < f.len() ==> !is_white_space(#[trigger] f[k]),
        w.len() == 0 || is_white_space(w.last()),
    ensures
        word_start(w + f) == w.len(),
    decreases f.len(),
{
    if f.len() == 0 {
        assert(w + f =~= w);
    } else {
        let d = f.drop_last();
        assert forall|k: int| 0 <= k < d.len() implies !is_white_space(#[trigger] d[k]) by {
            assert(d[k] == f[k]);
        }
        lemma_word_start_after(w, d);
        assert((w + f).drop_last() =~= w + d);
        assert((w + f).last() == f[f.len() - 1]);
    }
}

/// A position that `find_from` reports holds an occurrence, and no earlier
/// position from `i` on does.
pub proof fn lemma_find_from_sound(s: Seq<char>, p: Seq<char>, i: int)
    requires
        0 <= i,
    ensures
        find_from(s, p, i) matches Some(k) ==> (i <= k && occurs_at(s, p, k) && forall|j: int|
            i <= j < k ==> !occurs_at(s, p, j)),
        find_from(s, p, i) is None ==> forall|j: int| i <= j ==> !occurs_at(s, p, j),
    decreases s.len() + 1 - i,
{
    if i + p.len() > s.len() {
        assert forall|j: int| i <= j implies !occurs_at(s, p, j) by {}
    } else if occurs_at(s, p, i) {
    } else {
        lemma_find_from_sound(s, p, i + 1);
    }
}

/// The position `find_char` reports holds that character, and no earlier
/// position does.
pub proof fn lemma_find_char_sound(s: Seq<char>, c: char)
    ensures
        find_char(s, c) matches Some(k) ==> (0 <= k < s.len() && s[k] == c && forall|j: int|
            0 <= j < k ==> s[j] != c),
        find_char(s, c) is None ==> forall|j: int| 0 <= j < s.len() ==> s[j] != c,
{
    lemma_find_from_sound(s, seq![c], 0);
    if let Some(k) = find_char(s, c) {
        assert(s.subrange(k, k + 1)[0] == c);
        assert forall|j: int| 0 <= j < k implies s[j] != c by {
            if s[j] == c {
                assert(s.subrange(j, j + 1) =~= seq![c]);
                assert(occurs_at(s, seq![c], j));
            }
        }
    } else {
        assert forall|j: int| 0 <= j < s.len() implies s[j] != c by {
            if s[j] == c {
                assert(s.subrange(j, j + 1) =~= seq![c]);
                assert(occurs_at(s, seq![c], j));
            }
        }
    }
}

/// Trimming keeps a character out of a text that lacks it.
pub proof fn lemma_trim_keeps_absent(s: Seq<char>, c: char)
    requires
        forall|k: int| 0 <= k < s.len() ==> s[k] != c,
    ensures
        forall|k: int| 0 <= k < trim(s).len() ==> trim(s)[k] != c,
{
    lemma_trim_start_keeps_absent(s, c);
    lemma_trim_end_keeps_absent(trim_start(s), c);
}

proof fn lemma_trim_start_keeps_absent(s: Seq<char>, c: char)
    requires
        forall|k: int| 0 <= k < s.len() ==> s[k] != c,
    ensures
        forall|k: int| 0 <= k < trim_start(s).len() ==> trim_start(s)[k] != c,
    decreases s.len(),
{
    if s.len() > 0 && is_white_space(s[0]) {
        let t = s.subrange(1, s.len() as int);
        assert forall|k: int| 0 <= k < t.len() implies t[k] != c by {
            assert(t[k] == s[k + 1]);
        }
        lemma_trim_start_keeps_absent(t, c);
        assert(trim_start(s) == trim_start(t));
    } else {
        assert(trim_start(s) == s);
    }
}

proof fn lemma_trim_end_keeps_absent(s: Seq<char>, c: char)
    requires
        forall|k: int| 0 <= k < s.len() ==> s[k] != c,
    ensures
        forall|k: int| 0 <= k < trim_end(s).len() ==> trim_end(s)[k] != c,
    decreases s.len(),
{
    if s.len() > 0 && is_white_space(s.last()) {
        let t = s.drop_last();
        assert forall|k: int| 0 <= k < t.len() implies t[k] != c by {
            assert(t[k] == s[k]);
        }
        lemma_trim_end_keeps_absent(t, c);
        assert(trim_end(s) == trim_end(t));
    } else {
        assert(trim_end(s) == s);
    }
}

/// Appends characters to a `String`.
pub fn push_chars(s: &mut String, v: &Vec<char>)
    ensures
        final(s)@ == old(s)@ + v@,
{
    let ghost start = s@;
    let mut i: usize = 0;
    while i < v.len()
        invariant
            i <= v.len(),
            s@ == start + v@.take(i as int),
        decreases v.len() - i,
    {
        s.push(v[i]);
        i += 1;
        assert(s@ =~= start + v@.take(i as int));
    }
    assert(v@.take(i as int) =~= v@);
}

/// The characters of a string slice.
pub fn to_chars(s: &str) -> (v: Vec<char>)
    ensures
        v@ == s@,
{
    let mut v: Vec<char> = Vec::new();
    for c in it: s.chars()
        invariant
            v@ == it.seq().take(it.index() as int),
            it.seq() == s@,
    {
        v.push(c);
    }
    v
}

/// A `String` holding the given characters.
pub fn from_chars(v: &Vec<char>) -> (s: String)
    ensures
        s@ == v@,
{
    let mut s = String::new();
    let mut i: usize = 0;
    while i < v.len()
        invariant
            i <= v.len(),
            s@ == v@.take(i as int),
        decreases v.len() - i,
    {
        s.push(v[i]);
        i += 1;
        assert(s@ =~= v@.take(i as int));
    }
    assert(v@.take(i as int) =~= v@);
    s
}

/// Unicode white space test.
pub fn is_white_space_char(c: char) -> (b: bool)
    ensures
        b == is_white_space(c),
{
    let u = c as u32;
    (0x9 <= u && u <= 0xd) || u == 0x20 || u == 0x85 || u == 0xa0 || u == 0x1680 || (0x2000 <= u
        && u <= 0x200a) || u == 0x2028 || u == 0x2029 || u == 0x202f || u == 0x205f || u == 0x3000
}

/// Unicode decimal digit test (`\d`).
pub fn is_decimal_digit_char(c: char) -> (b: bool)
    ensures
        b == is_decimal_digit(c),
{
    let u = c as u32;
    let mut i: usize = 0;
    while i < 71
        invariant
            i <= 71,
            u == c as u32,
            forall|j: int|
                0 <= j < i ==> !(DECIMAL_DIGIT_RANGES@[j].0 <= u && u <= DECIMAL_DIGIT_RANGES@[j].1),
        decreases 71 - i,
    {
        let range = DECIMAL_DIGIT_RANGES[i];
        assert(range == DECIMAL_DIGIT_RANGES@[i as int]);
        if range.0 <= u && u <= range.1 {
            assert(DECIMAL_DIGIT_RANGES@[i as int].0 <= c as u32);
            return true;
        }
        i += 1;
    }
    false
}

/// The characters `s[from..to]`.
pub fn slice_chars(s: &Vec<char>, from: usize, to: usize) -> (r: Vec<char>)
    requires
        from <= to <= s.len(),
    ensures
        r@ == s@.subrange(from as int, to as int),
{
    let mut r: Vec<char> = Vec::new();
    let mut i = from;
    while i < to
        invariant
            from <= i <= to <= s.len(),
            r@ == s@.subrange(from as int, i as int),
        decreases to - i,
    {
        r.push(s[i]);
        i += 1;
        assert(r@ =~= s@.subrange(from as int, i as int));
    }
    r
}

/// Character sequence equality.
pub fn chars_equal(a: &Vec<char>, b: &Vec<char>) -> (r: bool)
    ensures
        r == (a@ == b@),
{
    if a.len() != b.len() {
        return false;
    }
    let mut i: usize = 0;
    while i < a.len()
        invariant
            a.len() == b.len(),
            i <= a.len(),
            forall|j: int| 0 <= j < i ==> a@[j] == b@[j],
        decreases a.len() - i,
    {
        if a[i] != b[i] {
            return false;
        }
        i += 1;
    }
    assert(a@ =~= b@);
    true
}

/// Whether `p` occurs in `s` at position `i`.
pub fn occurs_at_exec(s: &Vec<char>, p: &Vec<char>, i: usize) -> (r: bool)
    ensures
        r == occurs_at(s@, p@, i as int),
{
    if i > s.len() || p.len() > s.len() - i {
        return false;
    }
    let mut k: usize = 0;
    while k < p.len()
        invariant
            i + p.len() <= s.len(),
            k <= p.len(),
            forall|j: int| 0 <= j < k ==> s@[i + j] == p@[j],
        decreases p.len() - k,
    {
        if s[i + k] != p[k] {
            assert(s@.subrange(i as int, i + p.len())[k as int] != p@[k as int]);
            return false;
        }
        k += 1;
    }
    assert(s@.subrange(i as int, i + p.len()) =~= p@);
    true
}

/// The first position of `p` in `s`.
pub fn find_exec(s: &Vec<char>, p: &Vec<char>) -> (r: Option<usize>)
    ensures
        as_int(r) == find(s@, p@),
{
    if p.len() > s.len() {
        return None;
    }
    let last = s.len() - p.len();
    let mut i: usize = 0;
    loop
        invariant
            last == s.len() - p.len(),
            i <= last,
            find(s@, p@) == find_from(s@, p@, i as int),
        decreases last - i,
    {
        if occurs_at_exec(s, p, i) {
            return Some(i);
        }
        if i == last {
            assert(find_from(s@, p@, i + 1) == None::<int>);
            return None;
        }
        i += 1;
    }
}

/// Whether `p` occurs in `s`.
pub fn contains_exec(s: &Vec<char>, p: &Vec<char>) -> (r: bool)
    ensures
        r == contains(s@, p@),
{
    find_exec(s, p).is_some()
}

/// The first position of the character `c` in `s`.
pub fn find_char_exec(s: &Vec<char>, c: char) -> (r: Option<usize>)
    ensures
        as_int(r) == find_char(s@, c),
{
    let p = vec![c];
    assert(p@ =~= seq![c]);
    find_exec(s, &p)
}

/// `s` without leading and trailing white space.
pub fn trim_exec(s: &Vec<char>) -> (r: Vec<char>)
    ensures
        r@ == trim(s@),
{
    let n = s.len();
    let mut a: usize = 0;
    assert(s@.subrange(0, n as int) =~= s@);
    while a < n && is_white_space_char(s[a])
        invariant
            n == s.len(),
            a <= n,
            trim_start(s@) == trim_start(s@.subrange(a as int, n as int)),
        decreases n - a,
    {
        assert(s@.subrange(a as int, n as int).subrange(1, n - a) =~= s@.subrange(a + 1, n as int));
        a += 1;
    }
    let ghost t = s@.subrange(a as int, n as int);
    assert(trim_start(s@) == t);
    let mut b: usize = n;
    while b > a && is_white_space_char(s[b - 1])
        invariant
            n == s.len(),
            a <= b <= n,
            t == s@.subrange(a as int, n as int),
            trim_end(t) == trim_end(s@.subrange(a as int, b as int)),
        decreases b - a,
    {
        assert(s@.subrange(a as int, b as int).drop_last() =~= s@.subrange(a as int, b - 1));
        b -= 1;
    }
    slice_chars(s, a, b)
}

/// Whether every character of `s` is white space.
pub fn is_blank_exec(s: &Vec<char>) -> (r: bool)
    ensures
        r == is_blank(s@),
{
    let mut i: usize = 0;
    while i < s.len()
        invariant
            i <= s.len(),
            forall|j: int| 0 <= j < i ==> is_white_space(#[trigger] s@[j]),
        decreases s.len() - i,
    {
        if !is_white_space_char(s[i]) {
            return false;
        }
        i += 1;
    }
    true
}

/// `s` with every non-overlapping occurrence of `p` removed, from the left.
pub fn remove_all_exec(s: &Vec<char>, p: &Vec<char>) -> (r: Vec<char>)
    ensures
        r@ == remove_all(s@, p@),
{
    if p.len() == 0 {
        return s.clone();
    }
    let n = s.len();
    let mut out: Vec<char> = Vec::new();
    let mut i: usize = 0;
    assert(s@.subrange(0, n as int) =~= s@);
    assert(out@ + remove_all(s@, p@) =~= remove_all(s@, p@));
    while i < n
        invariant
            n == s.len(),
            p.len() > 0,
            i <= n,
            out@ + remove_all(s@.subrange(i as int, n as int), p@) == remove_all(s@, p@),
        decreases n - i,
    {
        let ghost rest = s@.subrange(i as int, n as int);
        if p.len() <= n - i && occurs_at_exec(s, p, i) {
            assert(rest.subrange(0, p.len() as int) =~= s@.subrange(i as int, i + p.len()));
            assert(rest.subrange(p.len() as int, rest.len() as int) =~= s@.subrange(
                i + p.len(),
                n as int,
            ));
            i += p.len();
        } else {
            if p.len() <= n - i {
                assert(rest.subrange(0, p.len() as int) =~= s@.subrange(i as int, i + p.len()));
                assert(rest.subrange(0, p.len() as int) != p@);
                assert(rest.subrange(1, rest.len() as int) =~= s@.subrange(i + 1, n as int));
                assert(out@.push(s@[i as int]) + remove_all(s@.subrange(i + 1, n as int), p@)
                    =~= out@ + remove_all(rest, p@));
            } else {
                assert(remove_all(rest, p@) == rest);
                assert(remove_all(s@.subrange(i + 1, n as int), p@) == s@.subrange(
                    i + 1,
                    n as int,
                ));
                assert(out@.push(s@[i as int]) + s@.subrange(i + 1, n as int) =~= out@ + rest);
            }
            out.push(s[i]);
            i += 1;
        }
    }
    assert(remove_all(s@.subrange(n as int, n as int), p@) =~= Seq::<char>::empty());
    assert(out@ + Seq::<char>::empty() =~= out@);
    out
}

/// The last white-space separated word of `s`, or nothing.
pub fn last_word_exec(s: &Vec<char>) -> (r: Vec<char>)
    ensures
        r@ == last_word(s@),
{
    let n = s.len();
    let mut b: usize = n;
    assert(s@.subrange(0, n as int) =~= s@);
    while b > 0 && is_white_space_char(s[b - 1])
        invariant
            n == s.len(),
            b <= n,
            trim_end(s@) == trim_end(s@.subrange(0, b as int)),
        decreases b,
    {
        assert(s@.subrange(0, b as int).drop_last() =~= s@.subrange(0, b - 1));
        b -= 1;
    }
    assert(s@.subrange(0, b as int) == trim_end(s@));
    let ghost t = s@.subrange(0, b as int);
    let mut a: usize = b;
    while a > 0 && !is_white_space_char(s[a - 1])
        invariant
            a <= b <= n == s.len(),
            t == s@.subrange(0, b as int),
            word_start(t) == word_start(s@.subrange(0, a as int)),
        decreases a,
    {
        assert(s@.subrange(0, a as int).drop_last() =~= s@.subrange(0, a - 1));
        a -= 1;
    }
    slice_chars(s, a, b)
}

/// ASCII case folding of one character.
pub fn ascii_fold_exec(c: char) -> (r: u32)
    ensures
        r == ascii_fold(c),
{
    let u = c as u32;
    if 65 <= u && u <= 90 {
        u + 32
    } else {
        u
    }
}

/// Whether `s[from..from + p.len()]` equals `p` up to ASCII case.
fn region_eq_ignore_ascii_case(s: &Vec<char>, from: usize, p: &Vec<char>) -> (r: bool)
    requires
        from + p.len() <= s.len(),
    ensures
        r == eq_ignore_ascii_case(s@.subrange(from as int, from + p.len()), p@),
{
    let ghost region = s@.subrange(from as int, from + p.len());
    let mut k: usize = 0;
    while k < p.len()
        invariant
            from + p.len() <= s.len(),
            region == s@.subrange(from as int, from + p.len()),
            k <= p.len(),
            forall|j: int| 0 <= j < k ==> ascii_fold(#[trigger] region[j]) == ascii_fold(p@[j]),
        decreases p.len() - k,
    {
        if ascii_fold_exec(s[from + k]) != ascii_fold_exec(p[k]) {
            assert(region[k as int] == s@[from + k]);
            return false;
        }
        assert(region[k as int] == s@[from + k]);
        k += 1;
    }
    true
}

/// `s` ends with `p` up to ASCII case.
pub fn ends_with_ignore_ascii_case_exec(s: &Vec<char>, p: &Vec<char>) -> (r: bool)
    ensures
        r == ends_with_ignore_ascii_case(s@, p@),
{
    if s.len() < p.len() {
        return false;
    }
    region_eq_ignore_ascii_case(s, s.len() - p.len(), p)
}

/// `s` starts with `p` up to ASCII case.
pub fn starts_with_ignore_ascii_case_exec(s: &Vec<char>, p: &Vec<char>) -> (r: bool)
    ensures
        r == starts_with_ignore_ascii_case(s@, p@),
{
    if s.len() < p.len() {
        return false;
    }
    region_eq_ignore_ascii_case(s, 0, p)
}

/// `a` equals `b` up to ASCII case.
pub fn eq_ignore_ascii_case_exec(a: &Vec<char>, b: &Vec<char>) -> (r: bool)
    ensures
        r == eq_ignore_ascii_case(a@, b@),
{
    if a.len() != b.len() {
        return false;
    }
    let r = region_eq_ignore_ascii_case(a, 0, b);
    assert(a@.subrange(0, b.len() as int) =~= a@);
    r
}

} // verus!
