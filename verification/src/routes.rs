//! What is logged of a request.

use vstd::prelude::*;

use crate::text::{chars_of, find, first_match, first_match_bounds, joined, part, string_of};
use crate::url::{trim_slashes, without_slashes};

verus! {

/// A path as it is logged: without its signature, which is the part before the first slash that
/// does not lead it.
pub open spec fn redacted(path: Seq<char>) -> Seq<char> {
    let rest = without_slashes(path);
    let at = first_match(rest, "/"@, 0);
    if at < rest.len() {
        "/<redacted>/"@ + rest.skip(at + 1)
    } else {
        path
    }
}

/// A path as it is logged: without its signature.
pub fn redact(path: &str) -> (r: String)
    ensures
        r@ == redacted(path@),
{
    let rest = chars_of(trim_slashes(path).as_str());
    let slash: [char; 1] = ['/'];
    proof {
        reveal_strlit("/");
        assert(slash@ =~= "/"@);
        first_match_bounds(rest@, "/"@, 0);
    }
    let at = find(rest.as_slice(), &slash, 0);
    if at < rest.len() {
        let tail = string_of(part(rest.as_slice(), at + 1, rest.len()));
        assert(tail@ =~= rest@.skip(at as int + 1));
        joined("/<redacted>/", tail.as_str())
    } else {
        path.to_owned()
    }
}

} // verus!
