//! Where the roster is kept on disk.

use vstd::prelude::*;
use crate::text::to_chars;

verus! {

/// `c`, or a slash in the place of a backslash.
pub open spec fn forward_slash(c: char) -> char {
    if c == '\\' {
        '/'
    } else {
        c
    }
}

/// The address under which the database file at `path` is opened: the
/// scheme `sqlite://` and the path, written with slashes on every system.
pub open spec fn database_url_text(path: Seq<char>) -> Seq<char> {
    "sqlite://"@ + path.map_values(|c: char| forward_slash(c))
}

/// The address under which the database file at `path` is opened.
pub fn database_url(path: &str) -> (url: String)
    ensures
        url@ == database_url_text(path@),
{
    let chars = to_chars(path);
    let mut url = "sqlite://".to_owned();
    let ghost swapped = path@.map_values(|c: char| forward_slash(c));
    let mut i: usize = 0;
    assert("sqlite://"@ + swapped.take(0) =~= "sqlite://"@);
    while i < chars.len()
        invariant
            i <= chars.len(),
            chars@ == path@,
            swapped == path@.map_values(|c: char| forward_slash(c)),
            url@ == "sqlite://"@ + swapped.take(i as int),
        decreases chars.len() - i,
    {
        let c = chars[i];
        url.push(if c == '\\' { '/' } else { c });
        assert(url@ =~= "sqlite://"@ + swapped.take(i + 1));
        i += 1;
    }
    assert(swapped.take(i as int) =~= swapped);
    url
}

} // verus!
