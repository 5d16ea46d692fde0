//! Operations on path strings, each with its meaning on sequences of
//! characters.

use vstd::prelude::*;
use vstd::string::{StrSliceExecFns, StringExecFns, StringSliceAdditionalSpecFns};
use vstd::utf8::encode_utf8_decode_utf8;

verus! {

/// The character that separates the components of a path.
pub open spec fn separator() -> char {
    '/'
}

/// `s` without the separators at its end.
pub open spec fn trim_trailing_separators(s: Seq<char>) -> Seq<char>
    decreases s.len(),
{
    if s.len() > 0 && s.last() == separator() {
        trim_trailing_separators(s.drop_last())
    } else {
        s
    }
}

/// Whether a path starts at the root.
pub open spec fn is_absolute(path: Seq<char>) -> bool {
    path.len() > 0 && path[0] == separator()
}

/// `directory` without its trailing separators, one separator, then `name`.
pub open spec fn join(directory: Seq<char>, name: Seq<char>) -> Seq<char> {
    trim_trailing_separators(directory) + seq![separator()] + name
}

/// The position of the first separator in `s`, or the length of `s` if it
/// holds none.
pub open spec fn first_separator(s: Seq<char>) -> int
    decreases s.len(),
{
    if s.len() == 0 || s[0] == separator() {
        0
    } else {
        1 + first_separator(s.drop_first())
    }
}

/// The components of a path: the pieces between its separators, empty pieces
/// included. A path without separator is its own single component.
pub open spec fn components(path: Seq<char>) -> Seq<Seq<char>>
    decreases path.len(),
{
    let cut = first_separator(path);
    if 0 <= cut < path.len() {
        seq![path.subrange(0, cut)] + components(path.subrange(cut + 1, path.len() as int))
    } else {
        seq![path]
    }
}

/// Whether two strings hold the same characters.
pub fn str_eq(a: &str, b: &str) -> (same: bool)
    ensures
        same == (a@ == b@),
{
    let x = a.as_bytes();
    let y = b.as_bytes();
    proof {
        encode_utf8_decode_utf8(a@);
        encode_utf8_decode_utf8(b@);
    }
    if x.len() != y.len() {
        return false;
    }
    let mut k: usize = 0;
    while k < x.len()
        invariant
            k <= x@.len(),
            x@.len() == y@.len(),
            forall|j: int| 0 <= j < k ==> x@[j] == y@[j],
            x@ == a.spec_bytes(),
            y@ == b.spec_bytes(),
            vstd::utf8::decode_utf8(a.spec_bytes()) == a@,
            vstd::utf8::decode_utf8(b.spec_bytes()) == b@,
        decreases x@.len() - k,
    {
        if x[k] != y[k] {
            return false;
        }
        k += 1;
    }
    assert(x@ =~= y@);
    true
}

/// Whether a path starts with the separator.
pub fn starts_with_separator(path: &str) -> (b: bool)
    ensures
        b == is_absolute(path@),
{
    !path.is_empty() && path.get_char(0) == '/'
}

/// The string without the separators at its end.
pub fn trim_trailing<'a>(s: &'a str) -> (t: &'a str)
    ensures
        t@ == trim_trailing_separators(s@),
{
    let mut end = s.unicode_len();
    assert(s@.subrange(0, end as int) =~= s@);
    while end > 0 && s.get_char(end - 1) == '/'
        invariant
            end <= s@.len(),
            trim_trailing_separators(s@) == trim_trailing_separators(s@.subrange(0, end as int)),
        decreases end,
    {
        assert(s@.subrange(0, end as int).drop_last() =~= s@.subrange(0, end - 1));
        end -= 1;
    }
    s.substring_char(0, end)
}

/// Puts a name behind a directory: the directory without its trailing
/// separators, one separator, the name.
pub fn join_path(directory: &str, name: &str) -> (path: String)
    ensures
        path@ == join(directory@, name@),
{
    let mut path = String::from_str(trim_trailing(directory));
    proof {
        reveal_strlit("/");
        assert("/"@ =~= seq![separator()]);
    }
    path.append("/");
    path.append(name);
    path
}

/// Splits a path at its separators.
pub fn split_path(path: &str) -> (parts: Vec<String>)
    ensures
        parts@.map_values(|p: String| p@) == components(path@),
{
    let n = path.unicode_len();
    let mut parts: Vec<String> = Vec::new();
    let mut start: usize = 0;
    let mut i: usize = 0;
    assert(path@.subrange(0, n as int) =~= path@);
    assert(parts@.map_values(|p: String| p@) + components(path@) =~= components(path@));
    while i < n
        invariant
            start <= i <= n,
            n == path@.len(),
            forall|j: int| start <= j < i ==> path@[j] != separator(),
            components(path@) == parts@.map_values(|p: String| p@) + components(
                path@.subrange(start as int, n as int),
            ),
        decreases n - i,
    {
        if path.get_char(i) == '/' {
            let ghost rest = path@.subrange(start as int, n as int);
            let ghost done = parts@.map_values(|p: String| p@);
            proof {
                lemma_first_separator_at(rest, i - start);
                assert(rest.subrange(0, i - start) =~= path@.subrange(start as int, i as int));
                assert(rest.subrange(i - start + 1, rest.len() as int) =~= path@.subrange(
                    i + 1,
                    n as int,
                ));
            }
            let piece = String::from_str(path.substring_char(start, i));
            parts.push(piece);
            assert(parts@.map_values(|p: String| p@) =~= done + seq![
                path@.subrange(start as int, i as int),
            ]);
            start = i + 1;
        }
        i += 1;
    }
    let ghost rest = path@.subrange(start as int, n as int);
    let ghost done = parts@.map_values(|p: String| p@);
    proof {
        lemma_first_separator_at(rest, n - start);
    }
    let piece = String::from_str(path.substring_char(start, n));
    parts.push(piece);
    assert(parts@.map_values(|p: String| p@) =~= done + seq![rest]);
    parts
}

/// Where the first separator is, given that nothing before `cut` is one and
/// that `cut` is a separator or the end.
pub proof fn lemma_first_separator_at(s: Seq<char>, cut: int)
    requires
        0 <= cut <= s.len(),
        forall|j: int| 0 <= j < cut ==> s[j] != separator(),
        cut < s.len() ==> s[cut] == separator(),
    ensures
        first_separator(s) == cut,
    decreases s.len(),
{
    if s.len() == 0 || s[0] == separator() {
    } else {
        let rest = s.drop_first();
        assert forall|j: int| 0 <= j < cut - 1 implies rest[j] != separator() by {
            assert(rest[j] == s[j + 1]);
        }
        lemma_first_separator_at(rest, cut - 1);
    }
}

} // verus!
