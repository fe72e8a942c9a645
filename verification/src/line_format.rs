//! The line grammar of a WhatsApp text export.
//!
//! A message starts on a line that opens with a timestamp, in one of two
//! layouts:
//!
//! * iOS: `[D/M/Y, H:MM(:SS)] rest`, the regular expression
//!   `^\[(\d{1,2}[./]\d{1,2}[./]\d{2,4},\s*\d{1,2}:\d{2}(?::\d{2})?)\]\s+(.*)$`
//! * Android: `D/M/Y, H:MM(:SS) - rest`, the regular expression
//!   `^(\d{1,2}[./]\d{1,2}[./]\d{2,4},\s*\d{1,2}:\d{2}(?::\d{2})?)\s+-\s+(.*)$`
//!
//! and `rest` may name a sender: `^(?:~\s*)?([^:]+):\s?(.*)$`.
//! `\d` is a Unicode decimal digit, `\s` Unicode white space and `.` any
//! character but a line feed.
//!
//! The recognisers below take each repetition greedily. That is what the
//! regular expressions' leftmost-first semantics give: in every place where a
//! repetition is followed by something, the next item cannot match a character
//! that the repetition takes (a digit run is followed by `.`, `/`, `,`, `:`,
//! `]` or white space; a white space run by a digit, `-` or the captured tail),
//! so giving a character back never lets the match go on.
use vstd::prelude::*;
use crate::text::{
    DECIMAL_DIGIT_RANGES, lemma_find_from_sound, occurs_at, as_int, find_char, find_char_exec, is_decimal_digit, is_decimal_digit_char, is_white_space,
    is_white_space_char, lemma_find_char_sound, slice_chars,
};

verus! {

/// One step of the timestamp grammar.
#[derive(Clone, Copy)]
pub enum Atom {
    /// `\d{min,max}`, taken greedily.
    Digits(usize, usize),
    /// `[./]`.
    DateSeparator,
    /// One given character.
    Literal(char),
    /// `\s*`, taken greedily.
    Spaces,
}

/// The number of consecutive decimal digits of `s` from position `i`.
pub open spec fn digit_run(s: Seq<char>, i: int) -> int
    decreases s.len() - i,
{
    if 0 <= i < s.len() && is_decimal_digit(s[i]) {
        1 + digit_run(s, i + 1)
    } else {
        0
    }
}

/// The number of consecutive white space characters of `s` from position `i`.
pub open spec fn space_run(s: Seq<char>, i: int) -> int
    decreases s.len() - i,
{
    if 0 <= i < s.len() && is_white_space(s[i]) {
        1 + space_run(s, i + 1)
    } else {
        0
    }
}

/// A run length is never negative.
pub proof fn lemma_space_run_nonneg(s: Seq<char>, i: int)
    ensures
        space_run(s, i) >= 0,
    decreases s.len() - i,
{
    if 0 <= i < s.len() && is_white_space(s[i]) {
        lemma_space_run_nonneg(s, i + 1);
    }
}

/// Where one atom, matched at position `i` of `s`, ends.
pub open spec fn step_atom(s: Seq<char>, i: int, a: Atom) -> Option<int> {
    match a {
        Atom::Digits(min, max) => {
            let n = if digit_run(s, i) < max {
                digit_run(s, i)
            } else {
                max as int
            };
            if n >= min {
                Some(i + n)
            } else {
                None
            }
        },
        Atom::DateSeparator => if 0 <= i < s.len() && (s[i] == '.' || s[i] == '/') {
            Some(i + 1)
        } else {
            None
        },
        Atom::Literal(c) => if 0 <= i < s.len() && s[i] == c {
            Some(i + 1)
        } else {
            None
        },
        Atom::Spaces => Some(i + space_run(s, i)),
    }
}

/// Where a sequence of atoms, matched one after another from position `i`,
/// ends.
pub open spec fn match_atoms(s: Seq<char>, i: int, atoms: Seq<Atom>) -> Option<int>
    decreases atoms.len(),
{
    if atoms.len() == 0 {
        Some(i)
    } else {
        match step_atom(s, i, atoms[0]) {
            Some(j) => match_atoms(s, j, atoms.drop_first()),
            None => None,
        }
    }
}

/// `\d{1,2}[./]\d{1,2}[./]\d{2,4},\s*\d{1,2}:\d{2}`
pub open spec fn timestamp_atoms() -> Seq<Atom> {
    seq![
        Atom::Digits(1, 2),
        Atom::DateSeparator,
        Atom::Digits(1, 2),
        Atom::DateSeparator,
        Atom::Digits(2, 4),
        Atom::Literal(','),
        Atom::Spaces,
        Atom::Digits(1, 2),
        Atom::Literal(':'),
        Atom::Digits(2, 2),
    ]
}

/// `:\d{2}`, the optional seconds.
pub open spec fn seconds_atoms() -> Seq<Atom> {
    seq![Atom::Literal(':'), Atom::Digits(2, 2)]
}

/// Where a timestamp that starts at `i` ends.
pub open spec fn timestamp_end(s: Seq<char>, i: int) -> Option<int> {
    match match_atoms(s, i, timestamp_atoms()) {
        Some(e) => match match_atoms(s, e, seconds_atoms()) {
            Some(f) => Some(f),
            None => Some(e),
        },
        None => None,
    }
}

/// No line feed in `t`.
pub open spec fn newline_free(t: Seq<char>) -> bool {
    forall|k: int| 0 <= k < t.len() ==> t[k] != '\n'
}

/// `\s+(.*)$` from position `i`: where the captured tail starts.
pub open spec fn spaced_tail(s: Seq<char>, i: int) -> Option<int> {
    let w = i + space_run(s, i);
    if space_run(s, i) >= 1 && newline_free(s.subrange(w, s.len() as int)) {
        Some(w)
    } else {
        None
    }
}

/// The iOS layout: `(timestamp start, timestamp end, rest start)`.
pub open spec fn bracket_header(s: Seq<char>) -> Option<(int, int, int)> {
    if s.len() > 0 && s[0] == '[' {
        match timestamp_end(s, 1) {
            Some(e) => if e < s.len() && s[e] == ']' {
                match spaced_tail(s, e + 1) {
                    Some(w) => Some((1, e, w)),
                    None => None,
                }
            } else {
                None
            },
            None => None,
        }
    } else {
        None
    }
}

/// The Android layout: `(timestamp start, timestamp end, rest start)`.
pub open spec fn dash_header(s: Seq<char>) -> Option<(int, int, int)> {
    match timestamp_end(s, 0) {
        Some(e) => {
            let d = e + space_run(s, e);
            if space_run(s, e) >= 1 && d < s.len() && s[d] == '-' {
                match spaced_tail(s, d + 1) {
                    Some(w) => Some((0, e, w)),
                    None => None,
                }
            } else {
                None
            }
        },
        None => None,
    }
}

/// The bounds of a message header: the iOS layout is tried first.
pub open spec fn header_bounds(s: Seq<char>) -> Option<(int, int, int)> {
    match bracket_header(s) {
        Some(b) => Some(b),
        None => dash_header(s),
    }
}

/// A message header line split into its timestamp and the rest of the line.
pub open spec fn split_header(s: Seq<char>) -> Option<(Seq<char>, Seq<char>)> {
    match header_bounds(s) {
        Some((a, e, w)) => Some((s.subrange(a, e), s.subrange(w, s.len() as int))),
        None => None,
    }
}

/// The bounds of `^(?:~\s*)?([^:]+):\s?(.*)$` in `rest`:
/// `(name start, name end, text start)`.
pub open spec fn sender_bounds(rest: Seq<char>) -> Option<(int, int, int)> {
    match find_char(rest, ':') {
        None => None,
        Some(c) => {
            let t = if c + 1 < rest.len() && is_white_space(rest[c + 1]) {
                c + 2
            } else {
                c + 1
            };
            let name_start: Option<int> = if rest.len() > 0 && rest[0] == '~' {
                let k = space_run(rest, 1);
                if 1 + k < c {
                    Some(1 + k)
                } else if k >= 1 {
                    Some(c - 1)
                } else {
                    Some(0)
                }
            } else if c >= 1 {
                Some(0)
            } else {
                None
            };
            match name_start {
                Some(a) => if newline_free(rest.subrange(t, rest.len() as int)) {
                    Some((a, c, t))
                } else {
                    None
                },
                None => None,
            }
        },
    }
}

/// `rest` split into the sender candidate and the message text.
pub open spec fn split_sender(rest: Seq<char>) -> Option<(Seq<char>, Seq<char>)> {
    match sender_bounds(rest) {
        Some((a, c, t)) => Some((rest.subrange(a, c), rest.subrange(t, rest.len() as int))),
        None => None,
    }
}

/// The invisible formatting characters that exports scatter through lines
/// (bidirectional marks and embeddings, isolates, the byte order mark) and the
/// carriage return.
pub open spec fn is_format_char(c: char) -> bool {
    let u = c as u32;
    u == 0x200f || u == 0x200e || (0x202a <= u && u <= 0x202e) || u == 0xfeff || (0x2066 <= u && u
        <= 0x2069) || u == 0xd
}

/// `s` without its formatting characters.
pub open spec fn strip_format_chars(s: Seq<char>) -> Seq<char>
    decreases s.len(),
{
    if s.len() == 0 {
        s
    } else if is_format_char(s.last()) {
        strip_format_chars(s.drop_last())
    } else {
        strip_format_chars(s.drop_last()).push(s.last())
    }
}

fn is_format_char_exec(c: char) -> (b: bool)
    ensures
        b == is_format_char(c),
{
    let u = c as u32;
    u == 0x200f || u == 0x200e || (0x202a <= u && u <= 0x202e) || u == 0xfeff || (0x2066 <= u && u
        <= 0x2069) || u == 0xd
}

/// `s` without its formatting characters.
pub fn strip_format_chars_exec(s: &Vec<char>) -> (r: Vec<char>)
    ensures
        r@ == strip_format_chars(s@),
{
    let mut out: Vec<char> = Vec::new();
    let mut i: usize = 0;
    while i < s.len()
        invariant
            i <= s.len(),
            out@ == strip_format_chars(s@.take(i as int)),
        decreases s.len() - i,
    {
        assert(s@.take(i + 1).drop_last() =~= s@.take(i as int));
        if !is_format_char_exec(s[i]) {
            out.push(s[i]);
        }
        i += 1;
    }
    assert(s@.take(s.len() as int) =~= s@);
    out
}

/// The number of consecutive decimal digits from position `i`.
pub fn digit_run_exec(s: &Vec<char>, i: usize) -> (r: usize)
    requires
        i <= s.len(),
    ensures
        r == digit_run(s@, i as int),
        i + r <= s.len(),
{
    let mut j = i;
    while j < s.len() && is_decimal_digit_char(s[j])
        invariant
            i <= j <= s.len(),
            digit_run(s@, i as int) == (j - i) + digit_run(s@, j as int),
        decreases s.len() - j,
    {
        j += 1;
    }
    j - i
}

/// The number of consecutive white space characters from position `i`.
pub fn space_run_exec(s: &Vec<char>, i: usize) -> (r: usize)
    requires
        i <= s.len(),
    ensures
        r == space_run(s@, i as int),
        i + r <= s.len(),
{
    let mut j = i;
    while j < s.len() && is_white_space_char(s[j])
        invariant
            i <= j <= s.len(),
            space_run(s@, i as int) == (j - i) + space_run(s@, j as int),
        decreases s.len() - j,
    {
        j += 1;
    }
    j - i
}

fn step_atom_exec(s: &Vec<char>, i: usize, a: Atom) -> (r: Option<usize>)
    requires
        i <= s.len(),
    ensures
        as_int(r) == step_atom(s@, i as int, a),
        r matches Some(j) ==> j <= s.len(),
{
    match a {
        Atom::Digits(min, max) => {
            let run = digit_run_exec(s, i);
            let n = if run < max {
                run
            } else {
                max
            };
            if n >= min {
                Some(i + n)
            } else {
                None
            }
        },
        Atom::DateSeparator => {
            if i < s.len() && (s[i] == '.' || s[i] == '/') {
                Some(i + 1)
            } else {
                None
            }
        },
        Atom::Literal(c) => {
            if i < s.len() && s[i] == c {
                Some(i + 1)
            } else {
                None
            }
        },
        Atom::Spaces => {
            let run = space_run_exec(s, i);
            Some(i + run)
        },
    }
}

fn match_atoms_exec(s: &Vec<char>, i: usize, atoms: &Vec<Atom>) -> (r: Option<usize>)
    requires
        i <= s.len(),
    ensures
        as_int(r) == match_atoms(s@, i as int, atoms@),
        r matches Some(j) ==> j <= s.len(),
{
    let mut pos = i;
    let mut k: usize = 0;
    assert(atoms@.subrange(0, atoms@.len() as int) =~= atoms@);
    while k < atoms.len()
        invariant
            pos <= s.len(),
            k <= atoms.len(),
            match_atoms(s@, i as int, atoms@) == match_atoms(
                s@,
                pos as int,
                atoms@.subrange(k as int, atoms@.len() as int),
            ),
        decreases atoms.len() - k,
    {
        let ghost tail = atoms@.subrange(k as int, atoms@.len() as int);
        assert(tail[0] == atoms@[k as int]);
        assert(tail.drop_first() =~= atoms@.subrange(k + 1, atoms@.len() as int));
        match step_atom_exec(s, pos, atoms[k]) {
            Some(j) => {
                pos = j;
            },
            None => {
                return None;
            },
        }
        k += 1;
    }
    Some(pos)
}

fn timestamp_atoms_exec() -> (v: Vec<Atom>)
    ensures
        v@ == timestamp_atoms(),
{
    let v = vec![
        Atom::Digits(1, 2),
        Atom::DateSeparator,
        Atom::Digits(1, 2),
        Atom::DateSeparator,
        Atom::Digits(2, 4),
        Atom::Literal(','),
        Atom::Spaces,
        Atom::Digits(1, 2),
        Atom::Literal(':'),
        Atom::Digits(2, 2),
    ];
    assert(v@ =~= timestamp_atoms());
    v
}

fn seconds_atoms_exec() -> (v: Vec<Atom>)
    ensures
        v@ == seconds_atoms(),
{
    let v = vec![Atom::Literal(':'), Atom::Digits(2, 2)];
    assert(v@ =~= seconds_atoms());
    v
}

fn timestamp_end_exec(s: &Vec<char>, i: usize) -> (r: Option<usize>)
    requires
        i <= s.len(),
    ensures
        as_int(r) == timestamp_end(s@, i as int),
        r matches Some(j) ==> j <= s.len(),
{
    let main = timestamp_atoms_exec();
    match match_atoms_exec(s, i, &main) {
        Some(e) => {
            let secs = seconds_atoms_exec();
            match match_atoms_exec(s, e, &secs) {
                Some(f) => Some(f),
                None => Some(e),
            }
        },
        None => None,
    }
}

fn newline_free_from(s: &Vec<char>, w: usize) -> (r: bool)
    requires
        w <= s.len(),
    ensures
        r == newline_free(s@.subrange(w as int, s.len() as int)),
{
    let mut k = w;
    while k < s.len()
        invariant
            w <= k <= s.len(),
            forall|j: int| w <= j < k ==> s@[j] != '\n',
        decreases s.len() - k,
    {
        if s[k] == '\n' {
            assert(s@.subrange(w as int, s.len() as int)[k - w] == '\n');
            return false;
        }
        k += 1;
    }
    true
}

fn spaced_tail_exec(s: &Vec<char>, i: usize) -> (r: Option<usize>)
    requires
        i <= s.len(),
    ensures
        as_int(r) == spaced_tail(s@, i as int),
        r matches Some(j) ==> j <= s.len(),
{
    let run = space_run_exec(s, i);
    let w = i + run;
    if run >= 1 && newline_free_from(s, w) {
        Some(w)
    } else {
        None
    }
}

fn bracket_header_exec(s: &Vec<char>) -> (r: Option<(usize, usize, usize)>)
    ensures
        match r {
            Some((a, e, w)) => bracket_header(s@) == Some((a as int, e as int, w as int)) && a <= e
                <= w <= s.len(),
            None => bracket_header(s@) is None,
        },
{
    if s.len() > 0 && s[0] == '[' {
        match timestamp_end_exec(s, 1) {
            Some(e) => {
                if e < s.len() && s[e] == ']' {
                    match spaced_tail_exec(s, e + 1) {
                        Some(w) => Some((1, e, w)),
                        None => None,
                    }
                } else {
                    None
                }
            },
            None => None,
        }
    } else {
        None
    }
}

fn dash_header_exec(s: &Vec<char>) -> (r: Option<(usize, usize, usize)>)
    ensures
        match r {
            Some((a, e, w)) => dash_header(s@) == Some((a as int, e as int, w as int)) && a <= e
                <= w <= s.len(),
            None => dash_header(s@) is None,
        },
{
    match timestamp_end_exec(s, 0) {
        Some(e) => {
            let run = space_run_exec(s, e);
            let d = e + run;
            if run >= 1 && d < s.len() && s[d] == '-' {
                match spaced_tail_exec(s, d + 1) {
                    Some(w) => Some((0, e, w)),
                    None => None,
                }
            } else {
                None
            }
        },
        None => None,
    }
}

/// Splits a message header line into its timestamp and the rest of the line;
/// `None` for a line that does not open a message.
pub fn split_header_exec(s: &Vec<char>) -> (r: Option<(Vec<char>, Vec<char>)>)
    ensures
        match r {
            Some((ts, rest)) => split_header(s@) == Some((ts@, rest@)),
            None => split_header(s@) is None,
        },
{
    let b = match bracket_header_exec(s) {
        Some(b) => Some(b),
        None => dash_header_exec(s),
    };
    match b {
        Some((a, e, w)) => Some((slice_chars(s, a, e), slice_chars(s, w, s.len()))),
        None => None,
    }
}

/// Splits the rest of a header line into the sender candidate and the text;
/// `None` when it does not have that shape.
pub fn split_sender_exec(rest: &Vec<char>) -> (r: Option<(Vec<char>, Vec<char>)>)
    ensures
        match r {
            Some((name, text)) => split_sender(rest@) == Some((name@, text@)),
            None => split_sender(rest@) is None,
        },
{
    proof {
        lemma_find_char_sound(rest@, ':');
    }
    match find_char_exec(rest, ':') {
        None => None,
        Some(c) => {
            assert(find_char(rest@, ':') == Some(c as int));
            assert(c < rest.len());
            let t = if c + 1 < rest.len() && is_white_space_char(rest[c + 1]) {
                c + 2
            } else {
                c + 1
            };
            let name_start: Option<usize> = if rest.len() > 0 && rest[0] == '~' {
                let k = space_run_exec(rest, 1);
                if 1 + k < c {
                    Some(1 + k)
                } else if k >= 1 {
                    Some(c - 1)
                } else {
                    Some(0)
                }
            } else if c >= 1 {
                Some(0)
            } else {
                None
            };
            match name_start {
                Some(a) => {
                    if newline_free_from(rest, t) {
                        Some((slice_chars(rest, a, c), slice_chars(rest, t, rest.len())))
                    } else {
                        None
                    }
                },
                None => None,
            }
        },
    }
}

/// An ASCII digit `0` to `9`.
pub open spec fn is_ascii_digit(c: char) -> bool {
    '0' <= c && c <= '9'
}

/// `ts` is a timestamp as the exports write it, `D/M/Y, H:MM` or
/// `D/M/Y, H:MM:SS`: ASCII digits, `nd` of them for the day, `nm` for the
/// month, `ny` for the year and `nh` for the hour (one or two, except two to
/// four for the year), two for the minutes and the seconds; `/` or `.`
/// between the parts of the date, a comma and one space after it, and `:`
/// before the minutes and the seconds.
pub open spec fn export_timestamp(
    ts: Seq<char>,
    nd: int,
    nm: int,
    ny: int,
    nh: int,
    seconds: bool,
) -> bool {
    let p1 = nd;
    let p3 = p1 + 1 + nm;
    let p5 = p3 + 1 + ny;
    let p8 = p5 + 2 + nh;
    let p10 = p8 + 3;
    &&& 1 <= nd <= 2
    &&& 1 <= nm <= 2
    &&& 2 <= ny <= 4
    &&& 1 <= nh <= 2
    &&& ts.len() == if seconds {
        p10 + 3
    } else {
        p10
    }
    &&& forall|k: int|
        0 <= k < ts.len() ==> (is_ascii_digit(#[trigger] ts[k]) <==> !(k == p1 || k == p3 || k
            == p5 || k == p5 + 1 || k == p8 || (seconds && k == p10)))
    &&& (ts[p1] == '/' || ts[p1] == '.')
    &&& (ts[p3] == '/' || ts[p3] == '.')
    &&& ts[p5] == ','
    &&& ts[p5 + 1] == ' '
    &&& ts[p8] == ':'
    &&& (seconds ==> ts[p10] == ':')
}

proof fn lemma_ascii_digit_is_decimal(c: char)
    requires
        is_ascii_digit(c),
    ensures
        is_decimal_digit(c),
{
    assert(DECIMAL_DIGIT_RANGES@[0] == (0x30u32, 0x39u32));
    assert(0x30 <= c as u32 && c as u32 <= 0x39);
    assert(DECIMAL_DIGIT_RANGES@[0].0 <= c as u32 && c as u32 <= DECIMAL_DIGIT_RANGES@[0].1);
}

proof fn lemma_not_decimal(c: char)
    requires
        (c as u32) < 0x30 || (0x39 < (c as u32) && (c as u32) < 0x660),
    ensures
        !is_decimal_digit(c),
{
    assert(DECIMAL_DIGIT_RANGES@[0] == (0x30u32, 0x39u32));
    assert(forall|i: int| 1 <= i < 71 ==> DECIMAL_DIGIT_RANGES@[i].0 >= 0x660);
}

proof fn lemma_digit_block(s: Seq<char>, i: int, n: int)
    requires
        0 <= i,
        0 <= n,
        i + n <= s.len(),
        forall|k: int| i <= k < i + n ==> is_ascii_digit(#[trigger] s[k]),
        i + n == s.len() || !is_decimal_digit(s[i + n]),
    ensures
        digit_run(s, i) == n,
    decreases n,
{
    if n > 0 {
        lemma_ascii_digit_is_decimal(s[i]);
        lemma_digit_block(s, i + 1, n - 1);
    }
}

proof fn lemma_space_one(s: Seq<char>, i: int)
    requires
        0 <= i < s.len(),
        s[i] == ' ',
        i + 1 == s.len() || !is_white_space(s[i + 1]),
    ensures
        space_run(s, i) == 1,
{
    assert(is_white_space(' '));
    assert(space_run(s, i + 1) == 0);
}

proof fn lemma_match_chain(s: Seq<char>, atoms: Seq<Atom>, pos: Seq<int>)
    requires
        pos.len() == atoms.len() + 1,
        forall|k: int| 0 <= k < atoms.len() ==> step_atom(s, pos[k], atoms[k]) == Some(pos[k + 1]),
    ensures
        match_atoms(s, pos[0], atoms) == Some(pos[atoms.len() as int]),
    decreases atoms.len(),
{
    if atoms.len() > 0 {
        let a = atoms.drop_first();
        let p = pos.drop_first();
        assert forall|k: int| 0 <= k < a.len() implies step_atom(s, p[k], a[k]) == Some(p[k + 1]) by {
            assert(a[k] == atoms[k + 1]);
            assert(p[k] == pos[k + 1]);
            assert(p[k + 1] == pos[k + 2]);
        }
        lemma_match_chain(s, a, p);
        assert(step_atom(s, pos[0], atoms[0]) == Some(pos[1]));
    }
}

/// A timestamp as the exports write it, standing at `o` in `s` and followed
/// by a character that is neither a digit nor `:`, is matched to its end.
proof fn lemma_timestamp_at(
    s: Seq<char>,
    o: int,
    ts: Seq<char>,
    nd: int,
    nm: int,
    ny: int,
    nh: int,
    seconds: bool,
)
    requires
        export_timestamp(ts, nd, nm, ny, nh, seconds),
        0 <= o,
        o + ts.len() < s.len(),
        forall|k: int| 0 <= k < ts.len() ==> s[o + k] == ts[k],
        s[o + ts.len()] == ']' || s[o + ts.len()] == ' ',
    ensures
        timestamp_end(s, o) == Some(o + ts.len()),
{
    let p1 = o + nd;
    let p3 = p1 + 1 + nm;
    let p5 = p3 + 1 + ny;
    let p8 = p5 + 2 + nh;
    let p10 = p8 + 3;
    let e = o + ts.len();
    assert forall|k: int| o <= k < e && k != p1 && k != p3 && k != p5 && k != p5 + 1 && k != p8
        && !(seconds && k == p10) implies is_ascii_digit(#[trigger] s[k]) by {
        assert(s[o + (k - o)] == ts[k - o]);
    }
    assert(s[p1] == ts[nd]);
    assert(s[p3] == ts[p3 - o]);
    assert(s[p5] == ts[p5 - o]);
    assert(s[p5 + 1] == ts[p5 + 1 - o]);
    assert(s[p8] == ts[p8 - o]);
    lemma_not_decimal(s[p1]);
    lemma_not_decimal(s[p3]);
    lemma_not_decimal(s[p5]);
    lemma_not_decimal(s[p5 + 1]);
    lemma_not_decimal(s[p8]);
    lemma_not_decimal(s[e]);
    lemma_digit_block(s, o, nd);
    lemma_digit_block(s, p1 + 1, nm);
    lemma_digit_block(s, p3 + 1, ny);
    lemma_digit_block(s, p5 + 2, nh);
    assert(is_ascii_digit(s[p5 + 2]));
    lemma_space_one(s, p5 + 1);
    let pos = seq![o, p1, p1 + 1, p3, p3 + 1, p5, p5 + 1, p5 + 2, p8, p8 + 1, p10];
    if seconds {
        assert(s[p10] == ts[p10 - o]);
        lemma_not_decimal(s[p10]);
        lemma_digit_block(s, p8 + 1, 2);
        lemma_digit_block(s, p10 + 1, 2);
    } else {
        lemma_digit_block(s, p8 + 1, 2);
    }
    lemma_match_chain(s, timestamp_atoms(), pos);
    if seconds {
        lemma_match_chain(s, seconds_atoms(), seq![p10, p10 + 1, p10 + 3]);
    } else {
        assert(step_atom(s, p10, seconds_atoms()[0]) is None);
    }
}

/// A line that opens with a timestamp as the exports write it starts a
/// message, in either layout: `[timestamp] rest` and `timestamp - rest` split
/// into the timestamp and `rest`, for every `rest` on one line that does not
/// open with white space.
pub proof fn law_header_lines(
    ts: Seq<char>,
    nd: int,
    nm: int,
    ny: int,
    nh: int,
    seconds: bool,
    rest: Seq<char>,
)
    requires
        export_timestamp(ts, nd, nm, ny, nh, seconds),
        newline_free(rest),
        rest.len() == 0 || !is_white_space(rest[0]),
    ensures
        split_header(seq!['['] + ts + "] "@ + rest) == Some((ts, rest)),
        split_header(ts + " - "@ + rest) == Some((ts, rest)),
{
    reveal_strlit("] ");
    reveal_strlit(" - ");
    let n = ts.len() as int;
    // iOS
    let a = seq!['['] + ts + "] "@ + rest;
    assert forall|k: int| 0 <= k < n implies a[1 + k] == ts[k] by {}
    assert(a[1 + n] == ']');
    lemma_timestamp_at(a, 1, ts, nd, nm, ny, nh, seconds);
    assert(a[n + 2] == ' ');
    if rest.len() > 0 {
        assert(a[n + 3] == rest[0]);
    }
    lemma_space_one(a, n + 2);
    assert(a.subrange(n + 3, a.len() as int) =~= rest);
    assert(a.subrange(1, n + 1) =~= ts);
    // Android
    let b = ts + " - "@ + rest;
    assert forall|k: int| 0 <= k < n implies b[0 + k] == ts[k] by {}
    assert(b[n] == ' ');
    lemma_timestamp_at(b, 0, ts, nd, nm, ny, nh, seconds);
    assert(is_ascii_digit(ts[0]));
    assert(b[0] == ts[0]);
    assert(b[n + 1] == '-');
    assert(!is_white_space('-'));
    lemma_space_one(b, n);
    assert(b[n + 2] == ' ');
    if rest.len() > 0 {
        assert(b[n + 3] == rest[0]);
    }
    lemma_space_one(b, n + 2);
    assert(b.subrange(n + 3, b.len() as int) =~= rest);
    assert(b.subrange(0, n) =~= ts);
}

/// The rest of a header line names its sender before the first colon: for a
/// name without `:` that does not open with `~`, `name: text` and `name:text`
/// (when the text does not open with white space) split into the name and
/// the text, and so does `~ name: text` for a name that does not open with
/// white space; a rest without a colon names no sender. The text must be on
/// one line.
pub proof fn law_sender_split(name: Seq<char>, text: Seq<char>, rest: Seq<char>)
    requires
        name.len() > 0,
        forall|k: int| 0 <= k < name.len() ==> name[k] != ':',
        newline_free(text),
    ensures
        name[0] != '~' ==> split_sender(name + ": "@ + text) == Some((name, text)),
        name[0] != '~' && (text.len() == 0 || !is_white_space(text[0])) ==> split_sender(
            name + ":"@ + text,
        ) == Some((name, text)),
        !is_white_space(name[0]) ==> split_sender("~ "@ + name + ": "@ + text) == Some(
            (name, text),
        ),
        (forall|k: int| 0 <= k < rest.len() ==> rest[k] != ':') ==> split_sender(rest) is None,
{
    reveal_strlit(": ");
    reveal_strlit(":");
    reveal_strlit("~ ");
    let n = name.len() as int;
    lemma_find_from_sound(rest, seq![':'], 0);
    if exists|j: int| 0 <= j && occurs_at(rest, seq![':'], j) {
        let j = choose|j: int| 0 <= j && occurs_at(rest, seq![':'], j);
        assert(rest.subrange(j, j + 1)[0] == rest[j]);
    }
    let a = name + ": "@ + text;
    let b = name + ":"@ + text;
    let c = "~ "@ + name + ": "@ + text;
    lemma_find_from_sound(a, seq![':'], 0);
    lemma_find_from_sound(b, seq![':'], 0);
    lemma_find_from_sound(c, seq![':'], 0);
    assert(a.subrange(n, n + 1) =~= seq![':']);
    assert(b.subrange(n, n + 1) =~= seq![':']);
    assert(c.subrange(n + 2, n + 3) =~= seq![':']);
    assert forall|j: int| 0 <= j < n implies !occurs_at(a, seq![':'], j) by {
        assert(a.subrange(j, j + 1)[0] == a[j]);
        assert(a[j] == name[j]);
    }
    assert forall|j: int| 0 <= j < n implies !occurs_at(b, seq![':'], j) by {
        assert(b.subrange(j, j + 1)[0] == b[j]);
        assert(b[j] == name[j]);
    }
    assert forall|j: int| 0 <= j < n + 2 implies !occurs_at(c, seq![':'], j) by {
        assert(c.subrange(j, j + 1)[0] == c[j]);
        if j >= 2 {
            assert(c[j] == name[j - 2]);
        }
    }
    assert(occurs_at(a, seq![':'], n));
    assert(occurs_at(b, seq![':'], n));
    assert(find_char(a, ':') == Some(n));
    assert(find_char(b, ':') == Some(n));
    assert(occurs_at(c, seq![':'], n + 2));
    assert(find_char(c, ':') == Some(n + 2));
    assert(is_white_space(' '));
    assert(a[n + 1] == ' ');
    assert(a.subrange(n + 2, a.len() as int) =~= text);
    assert(a.subrange(0, n) =~= name);
    if text.len() > 0 {
        assert(b[n + 1] == text[0]);
    }
    assert(b.subrange(n + 1, b.len() as int) =~= text);
    assert(b.subrange(0, n) =~= name);
    assert(c[n + 3] == ' ');
    assert(c[2] == name[0]);
    assert(c[1] == ' ');
    assert(c[0] == '~');
    if !is_white_space(name[0]) {
        assert(space_run(c, 2) == 0);
        assert(space_run(c, 1) == 1);
    }
    assert(c.subrange(n + 4, c.len() as int) =~= text);
    assert(c.subrange(2, n + 2) =~= name);
}

/// The characters dropped from every line before it is read: the
/// left-to-right and right-to-left marks (U+200E, U+200F), the embeddings and
/// overrides U+202A to U+202E, the isolates U+2066 to U+2069, the byte order
/// mark U+FEFF and the carriage return; every other character is kept.
pub proof fn law_format_characters(c: char)
    ensures
        is_format_char(c) <==> (c == '\u{200e}' || c == '\u{200f}' || c == '\u{202a}' || c
            == '\u{202b}' || c == '\u{202c}' || c == '\u{202d}' || c == '\u{202e}' || c
            == '\u{2066}' || c == '\u{2067}' || c == '\u{2068}' || c == '\u{2069}' || c
            == '\u{feff}' || c == '\r'),
{
}

} // verus!
