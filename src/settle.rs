//! Directory entries, their extensions, and the markers of downloads that
//! are still being written.
use vstd::prelude::*;
use vstd::string::{StrSliceExecFns, StringExecFns};

verus! {

/// One entry of the watched directory's listing: its base name and whether
/// it is a directory.
pub struct FileEntry {
    pub name: String,
    pub is_dir: bool,
}

impl View for FileEntry {
    type V = (Seq<char>, bool);

    open spec fn view(&self) -> Self::V {
        (self.name@, self.is_dir)
    }
}

/// `c` with an ASCII upper-case letter turned to lower case.
pub open spec fn ascii_lower(c: char) -> char {
    if 'A' <= c && c <= 'Z' {
        ((c as u32) + 32) as char
    } else {
        c
    }
}

/// The index of the last '.' among the first `n` characters of `s`, or -1.
pub open spec fn last_dot_before(s: Seq<char>, n: int) -> int
    decreases n,
{
    if n <= 0 {
        -1
    } else if s[n - 1] == '.' {
        n - 1
    } else {
        last_dot_before(s, n - 1)
    }
}

/// The extension of a base name: what follows its last '.', in lower case.
/// A name without a dot, or whose only dot leads it (".profile"), has none.
pub open spec fn extension_of(name: Seq<char>) -> Seq<char> {
    let d = last_dot_before(name, name.len() as int);
    if d <= 0 {
        Seq::empty()
    } else {
        name.subrange(d + 1, name.len() as int).map_values(|c: char| ascii_lower(c))
    }
}

/// The extensions that mark a download still in progress.
pub open spec fn is_in_flight_ext(ext: Seq<char>) -> bool {
    ext == "tmp"@ || ext == "crdownload"@
}

/// An entry that holds a sorting pass back: a file with an in-flight
/// extension.
pub open spec fn is_marker(e: (Seq<char>, bool)) -> bool {
    !e.1 && is_in_flight_ext(extension_of(e.0))
}

/// Relies on `str::to_ascii_lowercase`: 'A'..='Z' become 'a'..='z', every
/// other character is kept.
#[verifier::external_body]
fn ascii_lowercase(s: &str) -> (r: String)
    ensures
        r@ == s@.map_values(|c: char| ascii_lower(c)),
{
    s.to_ascii_lowercase()
}

/// The extension of a base name (see `extension_of`).
pub fn extension(name: &str) -> (r: String)
    ensures
        r@ == extension_of(name@),
{
    let n = name.unicode_len();
    let mut i: usize = n;
    while i > 0 && name.get_char(i - 1) != '.'
        invariant
            i <= n,
            n == name@.len(),
            last_dot_before(name@, n as int) == last_dot_before(name@, i as int),
        decreases i,
    {
        i = i - 1;
    }
    if i <= 1 {
        String::new()
    } else {
        ascii_lowercase(name.substring_char(i, n))
    }
}

/// Whether `ext` marks a download still in progress ("tmp" or "crdownload").
pub fn is_in_flight(ext: &String) -> (r: bool)
    ensures
        r == is_in_flight_ext(ext@),
{
    *ext == String::from_str("tmp") || *ext == String::from_str("crdownload")
}

/// Whether the listing holds a file that is still being downloaded.
pub fn has_in_flight(entries: &Vec<FileEntry>) -> (r: bool)
    ensures
        r == exists|k: int| 0 <= k < entries@.len() && is_marker(#[trigger] entries@[k]@),
{
    let mut i: usize = 0;
    while i < entries.len()
        invariant
            i <= entries@.len(),
            forall|k: int| 0 <= k < i ==> !is_marker(#[trigger] entries@[k]@),
        decreases entries@.len() - i,
    {
        if !entries[i].is_dir && is_in_flight(&extension(entries[i].name.as_str())) {
            assert(is_marker(entries@[i as int]@));
            return true;
        }
        i = i + 1;
    }
    false
}

} // verus!
