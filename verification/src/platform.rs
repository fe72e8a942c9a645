//! The calls this library makes into `std::path` and the `uuid` crate.
use vstd::prelude::*;

verus! {

/// The final component of a path, as `std::path::Path::file_name` gives it
/// (`None` for a path that ends in `..` or has no component).
pub uninterp spec fn path_file_name(path: Seq<char>) -> Option<Seq<char>>;

/// A path made of one ordinary component: not empty, not `.` or `..`, and
/// without a separator (`/`, or `\` on Windows) or the drive colon of a
/// Windows prefix. On every platform it is its own file name.
pub open spec fn is_plain_file_name(path: Seq<char>) -> bool {
    &&& path.len() > 0
    &&& path != seq!['.']
    &&& path != seq!['.', '.']
    &&& forall|i: int| 0 <= i < path.len() ==> path[i] != '/' && path[i] != '\\' && path[i] != ':'
}

/// The position of the last `.` in `name`.
pub open spec fn last_dot(name: Seq<char>) -> Option<int>
    decreases name.len(),
{
    if name.len() == 0 {
        None
    } else if name.last() == '.' {
        Some(name.len() - 1)
    } else {
        last_dot(name.drop_last())
    }
}

/// The stem of a file name, as the documentation of `Path::file_stem` defines
/// it: the whole name when it has no `.`, or when its only `.` is its first
/// character; otherwise the part before the last `.`.
pub open spec fn stem_of_file_name(name: Seq<char>) -> Seq<char> {
    match last_dot(name) {
        Some(k) => if k == 0 {
            name
        } else {
            name.subrange(0, k)
        },
        None => name,
    }
}

/// Calls `std::path::Path::file_name`; the result is the named value
/// `path_file_name` of the path (converting a component of a `&str` path back
/// to `&str` always succeeds). A path of one ordinary component is its own
/// file name. What the name is for other paths is left to the platform's path
/// syntax and is not stated.
#[verifier::external_body]
pub(crate) fn file_name_of(path: &str) -> (r: Option<String>)
    ensures
        match r {
            Some(n) => path_file_name(path@) == Some(n@) && (is_plain_file_name(path@) ==> n@
                == path@),
            None => path_file_name(path@) is None && !is_plain_file_name(path@),
        },
{
    match std::path::Path::new(path).file_name() {
        Some(name) => name.to_str().map(String::from),
        None => None,
    }
}

/// Calls `std::path::Path::file_stem`: the stem of the path's file name, or
/// `None` when the path has no file name.
#[verifier::external_body]
pub(crate) fn file_stem_of(path: &str) -> (r: Option<String>)
    ensures
        r is None <==> path_file_name(path@) is None,
        r matches Some(n) ==> (path_file_name(path@) matches Some(name) && n@ == stem_of_file_name(
            name,
        )),
{
    match std::path::Path::new(path).file_stem() {
        Some(stem) => stem.to_str().map(String::from),
        None => None,
    }
}

/// A lowercase hexadecimal digit.
pub open spec fn is_lower_hex(c: char) -> bool {
    ('0' <= c && c <= '9') || ('a' <= c && c <= 'f')
}

/// The hyphenated text form of a random (version 4, RFC 4122 variant) UUID:
/// `xxxxxxxx-xxxx-4xxx-Vxxx-xxxxxxxxxxxx` with lowercase hexadecimal digits and
/// `V` one of `8`, `9`, `a`, `b`.
pub open spec fn is_random_uuid_text(s: Seq<char>) -> bool {
    &&& s.len() == 36
    &&& forall|i: int|
        0 <= i < 36 ==> if i == 8 || i == 13 || i == 18 || i == 23 {
            s[i] == '-'
        } else {
            is_lower_hex(#[trigger] s[i])
        }
    &&& s[14] == '4'
    &&& (s[19] == '8' || s[19] == '9' || s[19] == 'a' || s[19] == 'b')
}

/// Calls `uuid::Uuid::new_v4` and formats the result with `Display`, which
/// writes the hyphenated lowercase form. `new_v4` keeps the version digit `4`
/// and the variant bits of 128 random bits from the operating system. The
/// identifier is random: only its textual form is stated, not that two calls
/// give different identifiers. `new_v4` panics when the operating system
/// gives no random bytes, which no argument can rule out.
#[verifier::external_body]
pub(crate) fn new_random_id() -> (id: String)
    ensures
        is_random_uuid_text(id@),
{
    uuid::Uuid::new_v4().to_string()
}

} // verus!
