//! The encodings of sources and the names that they go by.

use vstd::prelude::*;

use crate::text::{
    chars_of, is_digit, is_digit_spec, is_letter, is_letter_spec, lowered, same_ignoring_case,
};

verus! {

/// The name of the encoding that a source is read in where a request names none.
pub const UTF8: &'static str = "UTF-8";

/// Other names of encodings, each with the one that it stands for.
pub open spec fn aliases() -> Seq<(Seq<char>, Seq<char>)> {
    seq![
        ("utf-8"@, "UTF-8"@),
        ("latin1"@, "ISO-8859-1"@),
        ("iso-8859-1"@, "ISO-8859-1"@),
        ("csISOLatin1"@, "ISO-8859-1"@),
    ]
}

/// The encoding that `label` is a name of, in either case, from the `from`th name on.
pub open spec fn alias_of(label: Seq<char>, from: int) -> Option<Seq<char>>
    decreases aliases().len() - from,
{
    if from >= aliases().len() {
        None
    } else if lowered(aliases()[from].0) == lowered(label) {
        Some(aliases()[from].1)
    } else {
        alias_of(label, from + 1)
    }
}

/// `c` may stand in the name of an encoding.
pub open spec fn is_label_char(c: char) -> bool {
    is_letter_spec(c) || is_digit_spec(c) || c == '-' || c == '_' || c == '.' || c == ':'
}

/// The encoding that a label names: the one that it is another name of, or, where it is none, the
/// label itself if it could be the name of an encoding.
pub open spec fn encoding_of(label: Seq<char>) -> Option<Seq<char>> {
    if alias_of(label, 0) is Some {
        alias_of(label, 0)
    } else if label.len() > 0 && forall|i: int|
        0 <= i < label.len() ==> is_label_char(#[trigger] label[i]) {
        Some(label)
    } else {
        None
    }
}

/// The encoding that a label names.
pub fn resolve_encoding(label: &str) -> (r: Option<String>)
    ensures
        match (r, encoding_of(label@)) {
            (Some(name), Some(want)) => name@ == want,
            (None, None) => true,
            _ => false,
        },
{
    let known: Vec<(&'static str, &'static str)> = vec![
        ("utf-8", "UTF-8"),
        ("latin1", "ISO-8859-1"),
        ("iso-8859-1", "ISO-8859-1"),
        ("csISOLatin1", "ISO-8859-1"),
    ];
    let ghost all = aliases();
    let mut i: usize = 0;
    while i < known.len()
        invariant
            i <= known@.len(),
            all == aliases(),
            known@.len() == all.len(),
            forall|j: int|
                0 <= j < all.len() ==> (#[trigger] known@[j]).0@ == all[j].0 && known@[j].1@
                    == all[j].1,
            alias_of(label@, 0) == alias_of(label@, i as int),
        decreases known@.len() - i,
    {
        if same_ignoring_case(known[i].0, label) {
            return Some(known[i].1.to_owned());
        }
        i += 1;
    }
    let chars = chars_of(label);
    let mut k: usize = 0;
    while k < chars.len()
        invariant
            k <= chars@.len(),
            chars@ == label@,
            alias_of(label@, 0) is None,
            forall|j: int| 0 <= j < k ==> is_label_char(#[trigger] chars@[j]),
        decreases chars@.len() - k,
    {
        let c = chars[k];
        if !(is_letter(c) || is_digit(c) || c == '-' || c == '_' || c == '.' || c == ':') {
            assert(!is_label_char(label@[k as int]));
            return None;
        }
        k += 1;
    }
    if chars.len() == 0 {
        None
    } else {
        Some(label.to_owned())
    }
}

} // verus!
