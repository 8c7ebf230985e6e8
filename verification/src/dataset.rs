//! Finding a dataset: which file of a directory goes by its name, and which member of an archive
//! is meant.

use vstd::prelude::*;

use crate::formats::{ends_in, fits};
use crate::text::{
    begins, begins_with, chars_of, ends, in_order, join, joined, joined_by, lowered, ordered,
    ordered_chains, ordered_either_way, part, same, same_ignoring_case, stands_at, string_of,
    to_lower, views, views_empty, views_push,
};

verus! {

/// A kind of file that can be read, the likeliest first.
#[derive(Debug, Clone, Copy, PartialEq, Eq, Structural)]
pub enum Source {
    GeoJson,
    Gpkg,
    Fgb,
    Kml,
    Gml,
    Shp,
    Gdb,
    Json,
}

impl Source {
    pub open spec fn spec_extension(self) -> Seq<char> {
        match self {
            Source::GeoJson => "geojson"@,
            Source::Gpkg => "gpkg"@,
            Source::Fgb => "fgb"@,
            Source::Kml => "kml"@,
            Source::Gml => "gml"@,
            Source::Shp => "shp"@,
            Source::Gdb => "gdb"@,
            Source::Json => "json"@,
        }
    }

    /// The extension of such a file.
    pub fn extension(self) -> (r: &'static str)
        ensures
            r@ == self.spec_extension(),
    {
        match self {
            Source::GeoJson => "geojson",
            Source::Gpkg => "gpkg",
            Source::Fgb => "fgb",
            Source::Kml => "kml",
            Source::Gml => "gml",
            Source::Shp => "shp",
            Source::Gdb => "gdb",
            Source::Json => "json",
        }
    }

    /// Whether such a file is a directory.
    pub fn is_directory(self) -> (r: bool)
        ensures
            r == (self == Source::Gdb),
    {
        match self {
            Source::Gdb => true,
            _ => false,
        }
    }

    /// The kinds in their order.
    pub open spec fn spec_all() -> Seq<Source> {
        seq![
            Source::GeoJson,
            Source::Gpkg,
            Source::Fgb,
            Source::Kml,
            Source::Gml,
            Source::Shp,
            Source::Gdb,
            Source::Json,
        ]
    }

    /// The kinds in their order.
    pub fn all() -> (r: Vec<Source>)
        ensures
            r@ == Source::spec_all(),
    {
        let r: Vec<Source> = vec![
            Source::GeoJson,
            Source::Gpkg,
            Source::Fgb,
            Source::Kml,
            Source::Gml,
            Source::Shp,
            Source::Gdb,
            Source::Json,
        ];
        assert(r@ =~= Source::spec_all());
        r
    }

    /// The first kind, from the `from`th on, whose extension a path ends in.
    pub open spec fn from_path(path: Seq<char>, from: int) -> Option<Source>
        decreases Source::spec_all().len() - from,
    {
        if from >= Source::spec_all().len() {
            None
        } else if ends_in(path, Source::spec_all()[from].spec_extension()) {
            Some(Source::spec_all()[from])
        } else {
            Source::from_path(path, from + 1)
        }
    }

    /// The kind of file that a path names, by its extension in either case.
    pub fn of(path: &str) -> (r: Option<Source>)
        ensures
            r == Source::from_path(path@, 0),
    {
        let lower = chars_of(to_lower(path).as_str());
        let all = Source::all();
        let mut i: usize = 0;
        while i < all.len()
            invariant
                i <= all@.len(),
                all@ == Source::spec_all(),
                lower@ == lowered(path@),
                Source::from_path(path@, 0) == Source::from_path(path@, i as int),
            decreases all@.len() - i,
        {
            if fits(lower.as_slice(), all[i].extension(), Ghost(path@)) {
                return Some(all[i]);
            }
            i += 1;
        }
        None
    }
}

/// `segment` names a file that can be read.
pub open spec fn is_source(segment: Seq<char>) -> bool {
    Source::from_path(segment, 0) is Some
}

/// Whether a segment names a file that can be read.
pub fn looks_like_source(segment: &str) -> (r: bool)
    ensures
        r == is_source(segment@),
{
    Source::of(segment).is_some()
}

// Files of a directory.

/// The most members of an archive that are shown where none of them is the one asked for.
pub const MAX_CANDIDATES: usize = 20;

/// A file that may hold a dataset.
#[derive(Debug, Clone, Copy, PartialEq, Eq, Structural)]
pub enum Candidate {
    /// The dataset itself.
    Plain(Source),
    /// The dataset in an archive that is named after its kind.
    Zipped(Source),
    /// The dataset in an archive.
    Archive,
}

impl Candidate {
    /// The name of the file that holds the dataset `name`.
    pub open spec fn spec_filename(self, name: Seq<char>) -> Seq<char> {
        match self {
            Candidate::Plain(s) => name + "."@ + s.spec_extension(),
            Candidate::Zipped(s) => name + "."@ + s.spec_extension() + ".zip"@,
            Candidate::Archive => name + ".zip"@,
        }
    }

    /// The candidates in their order.
    pub open spec fn spec_all() -> Seq<Candidate> {
        Source::spec_all().map_values(|s: Source| Candidate::Plain(s))
            + Source::spec_all().map_values(|s: Source| Candidate::Zipped(s)) + seq![
            Candidate::Archive,
        ]
    }

    /// The candidates in their order.
    pub fn all() -> (r: Vec<Candidate>)
        ensures
            r@ == Candidate::spec_all(),
    {
        let sources = Source::all();
        let mut out: Vec<Candidate> = Vec::new();
        let ghost plain = Source::spec_all().map_values(|s: Source| Candidate::Plain(s));
        let ghost zipped = Source::spec_all().map_values(|s: Source| Candidate::Zipped(s));
        let mut i: usize = 0;
        while i < sources.len()
            invariant
                i <= sources@.len(),
                sources@ == Source::spec_all(),
                plain == Source::spec_all().map_values(|s: Source| Candidate::Plain(s)),
                out@ =~= plain.take(i as int),
            decreases sources@.len() - i,
        {
            out.push(Candidate::Plain(sources[i]));
            i += 1;
        }
        let mut k: usize = 0;
        while k < sources.len()
            invariant
                k <= sources@.len(),
                sources@ == Source::spec_all(),
                plain == Source::spec_all().map_values(|s: Source| Candidate::Plain(s)),
                zipped == Source::spec_all().map_values(|s: Source| Candidate::Zipped(s)),
                out@ =~= plain + zipped.take(k as int),
            decreases sources@.len() - k,
        {
            out.push(Candidate::Zipped(sources[k]));
            k += 1;
        }
        out.push(Candidate::Archive);
        assert(out@ =~= Candidate::spec_all());
        out
    }

    /// The name of the file that holds the dataset `name`.
    pub fn filename(&self, name: &str) -> (r: String)
        ensures
            r@ == self.spec_filename(name@),
    {
        match self {
            Candidate::Plain(s) => joined(joined(name, ".").as_str(), s.extension()),
            Candidate::Zipped(s) => {
                let inner = joined(joined(name, ".").as_str(), s.extension());
                joined(inner.as_str(), ".zip")
            },
            Candidate::Archive => joined(name, ".zip"),
        }
    }

    /// Whether the file is a directory.
    pub fn expects_directory(&self) -> (r: bool)
        ensures
            r == (*self == Candidate::Plain(Source::Gdb)),
    {
        match self {
            Candidate::Plain(s) => s.is_directory(),
            _ => false,
        }
    }

    /// Whether the file is an archive.
    pub fn is_archive(&self) -> (r: bool)
        ensures
            r == !(self is Plain),
    {
        match self {
            Candidate::Plain(_) => false,
            _ => true,
        }
    }
}

/// A file of a directory.
#[derive(Debug, Clone, PartialEq, Eq)]
pub struct Entry {
    pub name: String,
    pub is_dir: bool,
}

/// What a file of a directory is.
pub struct EntryModel {
    pub name: Seq<char>,
    pub is_dir: bool,
}

impl View for Entry {
    type V = EntryModel;

    open spec fn view(&self) -> EntryModel {
        EntryModel { name: self.name@, is_dir: self.is_dir }
    }
}

/// The names of some files.
pub open spec fn entry_names(entries: Seq<EntryModel>) -> Seq<Seq<char>> {
    Seq::new(entries.len(), |i: int| entries[i].name)
}

/// Where the first text stands that is `wanted`, `names.len()` where there is none.
pub open spec fn exact_at(names: Seq<Seq<char>>, wanted: Seq<char>, from: int) -> int
    decreases names.len() - from,
{
    if from >= names.len() {
        names.len() as int
    } else if names[from] == wanted {
        from
    } else {
        exact_at(names, wanted, from + 1)
    }
}

/// Among the first `n` texts that are `wanted` in either case, the one that comes first in order.
pub open spec fn variant_at(names: Seq<Seq<char>>, wanted: Seq<char>, n: int) -> Option<int>
    decreases n,
{
    if n <= 0 {
        None
    } else {
        let before = variant_at(names, wanted, n - 1);
        if lowered(names[n - 1]) != lowered(wanted) {
            before
        } else {
            match before {
                Some(best) if ordered(names[best], names[n - 1]) => before,
                _ => Some(n - 1),
            }
        }
    }
}

/// The text that is meant by `wanted`: the one that it is, or, where it is none, the first in order
/// of those that it is in another case.
pub open spec fn picked(names: Seq<Seq<char>>, wanted: Seq<char>) -> Option<int> {
    if exact_at(names, wanted, 0) < names.len() {
        Some(exact_at(names, wanted, 0))
    } else {
        variant_at(names, wanted, names.len() as int)
    }
}

proof fn exact_at_bounds(names: Seq<Seq<char>>, wanted: Seq<char>, from: int)
    requires
        0 <= from <= names.len(),
    ensures
        from <= exact_at(names, wanted, from) <= names.len(),
        exact_at(names, wanted, from) < names.len() ==> names[exact_at(names, wanted, from)]
            == wanted,
        forall|i: int|
            from <= i < exact_at(names, wanted, from) ==> #[trigger] names[i] != wanted,
    decreases names.len() - from,
{
    if from < names.len() && names[from] != wanted {
        exact_at_bounds(names, wanted, from + 1);
    }
}

proof fn variant_at_bounds(names: Seq<Seq<char>>, wanted: Seq<char>, n: int)
    requires
        0 <= n <= names.len(),
    ensures
        match variant_at(names, wanted, n) {
            Some(best) => {
                &&& 0 <= best < n
                &&& lowered(names[best]) == lowered(wanted)
                &&& forall|i: int|
                    0 <= i < n && lowered(#[trigger] names[i]) == lowered(wanted) ==> ordered(
                        names[best],
                        names[i],
                    )
            },
            None => forall|i: int|
                0 <= i < n ==> lowered(#[trigger] names[i]) != lowered(wanted),
        },
    decreases n,
{
    if n > 0 {
        variant_at_bounds(names, wanted, n - 1);
        let last = names[n - 1];
        ordered_either_way(last, last);
        match variant_at(names, wanted, n - 1) {
            Some(best) => if lowered(last) == lowered(wanted) && !ordered(names[best], last) {
                ordered_either_way(names[best], last);
                assert forall|i: int|
                    0 <= i < n && lowered(#[trigger] names[i]) == lowered(wanted) implies ordered(
                    last,
                    names[i],
                ) by {
                    if i < n - 1 {
                        ordered_chains(last, names[best], names[i]);
                    }
                }
            },
            None => {},
        }
    }
}

/// Something is picked exactly where one of the texts is the wanted one in either case; what is
/// picked is one of those, is the wanted one itself where that is there, and else comes before all
/// others that are the wanted one in another case.
pub proof fn picked_is_the_wanted_one(names: Seq<Seq<char>>, wanted: Seq<char>)
    ensures
        match picked(names, wanted) {
            Some(at) => {
                &&& 0 <= at < names.len()
                &&& lowered(names[at]) == lowered(wanted)
                &&& names.contains(wanted) ==> names[at] == wanted
                &&& !names.contains(wanted) ==> forall|i: int|
                    0 <= i < names.len() && lowered(#[trigger] names[i]) == lowered(wanted)
                        ==> ordered(names[at], names[i])
            },
            None => forall|i: int|
                0 <= i < names.len() ==> lowered(#[trigger] names[i]) != lowered(wanted),
        },
{
    exact_at_bounds(names, wanted, 0);
    variant_at_bounds(names, wanted, names.len() as int);
    if names.contains(wanted) {
        let i = choose|i: int| 0 <= i < names.len() && names[i] == wanted;
        assert(exact_at(names, wanted, 0) <= i);
    }
}

proof fn ordered_both_ways(a: Seq<char>, b: Seq<char>)
    requires
        ordered(a, b),
        ordered(b, a),
    ensures
        a == b,
    decreases a.len(),
{
    if a.len() == 0 || b.len() == 0 {
        assert(a =~= b);
    } else {
        ordered_both_ways(a.skip(1), b.skip(1));
        assert(a =~= seq![a[0]] + a.skip(1));
        assert(b =~= seq![b[0]] + b.skip(1));
    }
}

/// The same text is picked whatever order the texts come in.
pub proof fn picked_in_any_order(a: Seq<Seq<char>>, b: Seq<Seq<char>>, wanted: Seq<char>)
    requires
        forall|s: Seq<char>| #[trigger] a.contains(s) <==> b.contains(s),
    ensures
        (picked(a, wanted) is Some) == (picked(b, wanted) is Some),
        picked(a, wanted) is Some ==> a[picked(a, wanted)->0] == b[picked(b, wanted)->0],
{
    picked_is_the_wanted_one(a, wanted);
    picked_is_the_wanted_one(b, wanted);
    match picked(a, wanted) {
        Some(i) => {
            assert(a.contains(a[i]));
            let k = choose|k: int| 0 <= k < b.len() && b[k] == a[i];
            assert(lowered(b[k]) == lowered(wanted));
            let j = picked(b, wanted)->0;
            assert(b.contains(b[j]) && a.contains(b[j]));
            let m = choose|m: int| 0 <= m < a.len() && a[m] == b[j];
            assert(lowered(a[m]) == lowered(wanted));
            if !a.contains(wanted) {
                ordered_both_ways(a[i], b[j]);
            }
        },
        None => {
            match picked(b, wanted) {
                Some(j) => {
                    assert(b.contains(b[j]) && a.contains(b[j]));
                    let m = choose|m: int| 0 <= m < a.len() && a[m] == b[j];
                    assert(lowered(a[m]) == lowered(wanted));
                },
                None => {},
            }
        },
    }
}

fn pick(names: &Vec<&str>, wanted: &str) -> (r: Option<usize>)
    ensures
        match (r, picked(views(names@), wanted@)) {
            (Some(at), Some(want)) => at == want && at < names@.len(),
            (None, None) => true,
            _ => false,
        },
{
    let ghost all = views(names@);
    let mut i: usize = 0;
    while i < names.len()
        invariant
            i <= names@.len(),
            all == views(names@),
            exact_at(all, wanted@, 0) == exact_at(all, wanted@, i as int),
        decreases names@.len() - i,
    {
        assert(all[i as int] == names@[i as int]@);
        if same(names[i], wanted) {
            return Some(i);
        }
        i += 1;
    }
    let mut best: Option<usize> = None;
    let mut n: usize = 0;
    while n < names.len()
        invariant
            n <= names@.len(),
            all == views(names@),
            exact_at(all, wanted@, 0) == all.len(),
            match (best, variant_at(all, wanted@, n as int)) {
                (Some(at), Some(want)) => at == want && at < names@.len(),
                (None, None) => true,
                _ => false,
            },
        decreases names@.len() - n,
    {
        assert(all[n as int] == names@[n as int]@);
        if same_ignoring_case(names[n], wanted) {
            let keep = match best {
                Some(at) => {
                    assert(all[at as int] == names@[at as int]@);
                    in_order(names[at], names[n])
                },
                None => false,
            };
            if !keep {
                best = Some(n);
            }
        }
        n += 1;
    }
    best
}

/// The file that is meant by a name.
pub fn pick_entry<'e>(entries: &'e [Entry], wanted: &str) -> (r: Option<&'e Entry>)
    ensures
        match (r, picked(entry_names(views(entries@)), wanted@)) {
            (Some(entry), Some(at)) => entry@ == views(entries@)[at],
            (None, None) => true,
            _ => false,
        },
{
    let ghost all = views(entries@);
    let mut names: Vec<&str> = Vec::new();
    let mut i: usize = 0;
    while i < entries.len()
        invariant
            i <= entries@.len(),
            all == views(entries@),
            names@.len() == i,
            forall|j: int| 0 <= j < i ==> (#[trigger] names@[j])@ == all[j].name,
        decreases entries@.len() - i,
    {
        assert(all[i as int] == entries@[i as int]@);
        names.push(entries[i].name.as_str());
        i += 1;
    }
    assert(views(names@) =~= entry_names(all));
    match pick(&names, wanted) {
        Some(at) => Some(&entries[at]),
        None => None,
    }
}

/// The first candidate, from the `from`th on, that there is a file for, of the kind that it should
/// be: the file and whether it is an archive.
pub open spec fn located(entries: Seq<EntryModel>, name: Seq<char>, from: int) -> Option<
    (Seq<char>, bool),
>
    decreases Candidate::spec_all().len() - from,
{
    if from >= Candidate::spec_all().len() {
        None
    } else {
        let candidate = Candidate::spec_all()[from];
        match picked(entry_names(entries), candidate.spec_filename(name)) {
            Some(at) if entries[at].is_dir == (candidate == Candidate::Plain(Source::Gdb)) => Some(
                (entries[at].name, !(candidate is Plain)),
            ),
            _ => located(entries, name, from + 1),
        }
    }
}

/// The file that holds a dataset is one that the directory holds, and it is called after the dataset,
/// in either case, with what one of the candidates adds to it.
pub proof fn located_file_is_listed(entries: Seq<EntryModel>, name: Seq<char>, from: int)
    requires
        0 <= from,
    ensures
        located(entries, name, from) matches Some((file, archive)) ==> exists|i: int, k: int|
            #![trigger entries[i], Candidate::spec_all()[k]]
            {
                let candidate = Candidate::spec_all()[k];
                &&& 0 <= i < entries.len()
                &&& from <= k < Candidate::spec_all().len()
                &&& entries[i].name == file
                &&& entries[i].is_dir == (candidate == Candidate::Plain(Source::Gdb))
                &&& archive == !(candidate is Plain)
                &&& lowered(file) == lowered(candidate.spec_filename(name))
            },
    decreases Candidate::spec_all().len() - from,
{
    if from < Candidate::spec_all().len() {
        let candidate = Candidate::spec_all()[from];
        let wanted = candidate.spec_filename(name);
        picked_is_the_wanted_one(entry_names(entries), wanted);
        match picked(entry_names(entries), wanted) {
            Some(at) if entries[at].is_dir == (candidate == Candidate::Plain(Source::Gdb)) => {
                assert(entry_names(entries)[at] == entries[at].name);
                assert(Candidate::spec_all()[from] == candidate);
            },
            _ => located_file_is_listed(entries, name, from + 1),
        }
    }
}

/// The file that holds the dataset `name`, and whether it is an archive.
pub fn locate(entries: &[Entry], name: &str) -> (r: Option<(String, bool)>)
    ensures
        match (r, located(views(entries@), name@, 0)) {
            (Some((file, archive)), Some(want)) => want == (file@, archive),
            (None, None) => true,
            _ => false,
        },
{
    let ghost all = views(entries@);
    let candidates = Candidate::all();
    let mut i: usize = 0;
    while i < candidates.len()
        invariant
            i <= candidates@.len(),
            all == views(entries@),
            candidates@ == Candidate::spec_all(),
            located(all, name@, 0) == located(all, name@, i as int),
        decreases candidates@.len() - i,
    {
        let candidate = candidates[i];
        match pick_entry(entries, candidate.filename(name).as_str()) {
            Some(entry) => {
                if entry.is_dir == candidate.expects_directory() {
                    return Some((entry.name.clone(), candidate.is_archive()));
                }
            },
            None => {},
        }
        i += 1;
    }
    None
}

// Members of an archive.

/// `s` without the slashes that it ends in.
pub open spec fn without_end_slashes(s: Seq<char>) -> Seq<char>
    decreases s.len(),
{
    if s.len() > 0 && s.last() == '/' {
        without_end_slashes(s.drop_last())
    } else {
        s
    }
}

/// `s` after its last slash, or all of it where it has none.
pub open spec fn last_part(s: Seq<char>) -> Seq<char>
    decreases s.len(),
{
    if s.len() == 0 || s.last() == '/' {
        Seq::empty()
    } else {
        last_part(s.drop_last()).push(s.last())
    }
}

/// Where the first part of `s` ends, from `from` on, up to which it names a directory that can be
/// read, and past the end where there is none.
pub open spec fn directory_end(s: Seq<char>, from: int) -> int
    decreases s.len() + 1 - from,
{
    if from > s.len() {
        from
    } else if (from == s.len() || s[from] == '/') && Source::from_path(s.take(from), 0) == Some(
        Source::Gdb,
    ) {
        from
    } else {
        directory_end(s, from + 1)
    }
}

/// What can be read of a member of an archive: the member, or the directory that it lies in; none
/// of what an archiver left for itself.
pub open spec fn found_in(name: Seq<char>) -> Option<(Source, Seq<char>)> {
    let trimmed = without_end_slashes(name);
    let end = directory_end(trimmed, 0);
    if begins(name, "__MACOSX/"@) || begins(last_part(trimmed), "._"@) {
        None
    } else {
        match Source::from_path(trimmed, 0) {
            Some(source) => Some((source, trimmed)),
            None => if end <= trimmed.len() {
                Some((Source::Gdb, trimmed.take(end)))
            } else {
                None
            },
        }
    }
}

/// One of `found` is called `name`.
pub open spec fn is_found(found: Seq<(Source, Seq<char>)>, name: Seq<char>) -> bool {
    exists|i: int| 0 <= i < found.len() && (#[trigger] found[i]).1 == name
}

/// What can be read in an archive, after what was found before: each once, in the order of the
/// members.
pub open spec fn found_among(names: Seq<Seq<char>>, found: Seq<(Source, Seq<char>)>) -> Seq<
    (Source, Seq<char>),
>
    decreases names.len(),
{
    if names.len() == 0 {
        found
    } else {
        let next = match found_in(names[0]) {
            Some(member) if !is_found(found, member.1) => found.push(member),
            _ => found,
        };
        found_among(names.skip(1), next)
    }
}

/// One of `names` is where `member` was found.
pub open spec fn comes_from(names: Seq<Seq<char>>, member: (Source, Seq<char>)) -> bool {
    exists|k: int| 0 <= k < names.len() && found_in(#[trigger] names[k]) == Some(member)
}

/// What can be read in an archive is found once, however many members lie in it: nothing is missed,
/// nothing is made up, and no two are called the same.
pub proof fn each_is_found_once(names: Seq<Seq<char>>, found: Seq<(Source, Seq<char>)>)
    requires
        found_names(found).no_duplicates(),
    ensures
        found_names(found_among(names, found)).no_duplicates(),
        forall|i: int|
            0 <= i < found_among(names, found).len() ==> found.contains(
                #[trigger] found_among(names, found)[i],
            ) || comes_from(names, found_among(names, found)[i]),
        forall|i: int|
            0 <= i < found.len() ==> is_found(
                found_among(names, found),
                (#[trigger] found[i]).1,
            ),
        forall|k: int|
            0 <= k < names.len() && found_in(#[trigger] names[k]) is Some ==> is_found(
                found_among(names, found),
                (found_in(names[k])->0).1,
            ),
    decreases names.len(),
{
    let all = found_among(names, found);
    if names.len() == 0 {
        assert forall|i: int| 0 <= i < found.len() implies is_found(
            all,
            (#[trigger] found[i]).1,
        ) by {
            assert(all[i].1 == found[i].1);
        }
        assert forall|i: int| 0 <= i < all.len() implies found.contains(#[trigger] all[i]) by {
            assert(found[i] == all[i]);
        }
    } else {
        let here = found_in(names[0]);
        let rest = names.skip(1);
        let next = match here {
            Some(member) if !is_found(found, member.1) => found.push(member),
            _ => found,
        };
        assert(found_names(next).no_duplicates()) by {
            assert forall|i: int, j: int|
                0 <= i < next.len() && 0 <= j < next.len() && i != j implies found_names(next)[i]
                != found_names(next)[j] by {
                if i < found.len() && j < found.len() {
                    assert(found_names(found)[i] == found_names(next)[i]);
                    assert(found_names(found)[j] == found_names(next)[j]);
                } else if i < found.len() {
                    assert(next[i] == found[i]);
                } else {
                    assert(next[j] == found[j]);
                }
            }
        }
        each_is_found_once(rest, next);
        assert forall|i: int| 0 <= i < all.len() implies found.contains(#[trigger] all[i])
            || comes_from(names, all[i]) by {
            if next.contains(all[i]) {
                let k = choose|k: int| 0 <= k < next.len() && next[k] == all[i];
                if k < found.len() {
                    assert(found[k] == all[i]);
                } else {
                    assert(found_in(names[0]) == Some(all[i]));
                }
            } else {
                let k = choose|k: int|
                    0 <= k < rest.len() && found_in(#[trigger] rest[k]) == Some(all[i]);
                assert(names[k + 1] == rest[k]);
            }
        }
        assert forall|i: int| 0 <= i < found.len() implies is_found(
            all,
            (#[trigger] found[i]).1,
        ) by {
            assert(next[i] == found[i]);
        }
        assert forall|k: int|
            0 <= k < names.len() && found_in(#[trigger] names[k]) is Some implies is_found(
            all,
            (found_in(names[k])->0).1,
        ) by {
            if k > 0 {
                assert(rest[k - 1] == names[k]);
            } else {
                let member = here->0;
                if is_found(found, member.1) {
                    let i = choose|i: int| 0 <= i < found.len() && (#[trigger] found[i]).1
                        == member.1;
                    assert(next[i] == found[i]);
                } else {
                    assert(next[found.len() as int] == member);
                }
            }
        }
    }
}

/// A member of an archive that can be read.
pub struct Member {
    pub source: Source,
    pub name: String,
}

impl View for Member {
    type V = (Source, Seq<char>);

    open spec fn view(&self) -> (Source, Seq<char>) {
        (self.source, self.name@)
    }
}

fn trim_end_slashes(name: &str) -> (r: String)
    ensures
        r@ == without_end_slashes(name@),
{
    let v = chars_of(name);
    let mut n: usize = v.len();
    assert(name@.take(name@.len() as int) =~= name@);
    while n > 0 && v[n - 1] == '/'
        invariant
            n <= v@.len(),
            v@ == name@,
            without_end_slashes(name@) == without_end_slashes(name@.take(n as int)),
        decreases n,
    {
        assert(name@.take(n as int).drop_last() =~= name@.take(n as int - 1));
        n -= 1;
    }
    let r = string_of(part(v.as_slice(), 0, n));
    assert(r@ =~= name@.take(n as int));
    r
}

fn base_name(name: &str) -> (r: String)
    ensures
        r@ == last_part(name@),
{
    let v = chars_of(name);
    let mut i: usize = v.len();
    assert(name@.take(name@.len() as int) =~= name@);
    assert(last_part(name@) =~= last_part(name@) + name@.skip(name@.len() as int));
    while i > 0 && v[i - 1] != '/'
        invariant
            i <= v@.len(),
            v@ == name@,
            last_part(name@) == last_part(name@.take(i as int)) + name@.skip(i as int),
        decreases i,
    {
        let ghost head = name@.take(i as int);
        assert(head.drop_last() =~= name@.take(i as int - 1));
        assert(last_part(head) + name@.skip(i as int) =~= last_part(name@.take(i as int - 1))
            + name@.skip(i as int - 1));
        i -= 1;
    }
    let r = string_of(part(v.as_slice(), i, v.len()));
    assert(r@ =~= name@.skip(i as int));
    assert(last_part(name@.take(i as int)) =~= Seq::<char>::empty());
    assert(r@ =~= last_part(name@));
    r
}

fn directory_prefix(name: &str) -> (r: Option<String>)
    ensures
        match r {
            Some(prefix) => directory_end(name@, 0) <= name@.len() && prefix@ == name@.take(
                directory_end(name@, 0),
            ),
            None => directory_end(name@, 0) > name@.len(),
        },
{
    let v = chars_of(name);
    let n = v.len();
    let mut end: usize = 0;
    loop
        invariant
            end <= n,
            n == v@.len(),
            v@ == name@,
            directory_end(name@, 0) == directory_end(name@, end as int),
        decreases n - end,
    {
        if end == n || v[end] == '/' {
            let prefix = string_of(part(v.as_slice(), 0, end));
            assert(prefix@ =~= name@.take(end as int));
            match Source::of(prefix.as_str()) {
                Some(source) => {
                    if source.is_directory() {
                        return Some(prefix);
                    }
                },
                None => {},
            }
        }
        if end == n {
            assert(directory_end(name@, n + 1) == n + 1);
            return None;
        }
        end += 1;
    }
}

fn readable(name: &str) -> (r: Option<Member>)
    ensures
        match (r, found_in(name@)) {
            (Some(member), Some(want)) => member@ == want,
            (None, None) => true,
            _ => false,
        },
{
    if begins_with(name, "__MACOSX/") {
        return None;
    }
    let trimmed = trim_end_slashes(name);
    if begins_with(base_name(trimmed.as_str()).as_str(), "._") {
        return None;
    }
    match Source::of(trimmed.as_str()) {
        Some(source) => Some(Member { source, name: trimmed }),
        None => match directory_prefix(trimmed.as_str()) {
            Some(prefix) => Some(Member { source: Source::Gdb, name: prefix }),
            None => None,
        },
    }
}

fn already_found(found: &Vec<Member>, name: &str) -> (r: bool)
    ensures
        r == is_found(views(found@), name@),
{
    let ghost all = views(found@);
    let mut i: usize = 0;
    while i < found.len()
        invariant
            i <= found@.len(),
            all == views(found@),
            forall|j: int| 0 <= j < i ==> (#[trigger] all[j]).1 != name@,
        decreases found@.len() - i,
    {
        assert(all[i as int] == found@[i as int]@);
        if same(found[i].name.as_str(), name) {
            return true;
        }
        i += 1;
    }
    false
}

/// What can be read in an archive that has these members: each once, in their order.
pub fn archive_paths(names: &Vec<String>) -> (r: Vec<Member>)
    ensures
        views(r@) == found_among(views(names@), Seq::empty()),
{
    broadcast use views_push, views_empty;

    let ghost all = views(names@);
    let mut out: Vec<Member> = Vec::new();
    let mut i: usize = 0;
    assert(all.skip(0) =~= all);
    while i < names.len()
        invariant
            i <= names@.len(),
            all == views(names@),
            found_among(all, Seq::empty()) == found_among(all.skip(i as int), views(out@)),
        decreases names@.len() - i,
    {
        assert(all.skip(i as int)[0] == names@[i as int]@);
        assert(all.skip(i as int).skip(1) =~= all.skip(i as int + 1));
        match readable(names[i].as_str()) {
            Some(member) => {
                if !already_found(&out, member.name.as_str()) {
                    let ghost before = views(out@);
                    out.push(member);
                    assert(views(out@) == before.push(member@));
                }
            },
            None => {},
        }
        i += 1;
    }
    out
}

/// Where a kind stands in the order.
pub open spec fn rank_of(source: Source) -> int {
    match source {
        Source::GeoJson => 0,
        Source::Gpkg => 1,
        Source::Fgb => 2,
        Source::Kml => 3,
        Source::Gml => 4,
        Source::Shp => 5,
        Source::Gdb => 6,
        Source::Json => 7,
    }
}

fn rank(source: Source) -> (r: u8)
    ensures
        r as int == rank_of(source),
{
    match source {
        Source::GeoJson => 0,
        Source::Gpkg => 1,
        Source::Fgb => 2,
        Source::Kml => 3,
        Source::Gml => 4,
        Source::Shp => 5,
        Source::Gdb => 6,
        Source::Json => 7,
    }
}

/// How many slashes `s` has.
pub open spec fn slashes(s: Seq<char>) -> nat
    decreases s.len(),
{
    if s.len() == 0 {
        0
    } else if s.last() == '/' {
        slashes(s.drop_last()) + 1
    } else {
        slashes(s.drop_last())
    }
}

fn count_slashes(s: &str) -> (r: usize)
    ensures
        r as nat == slashes(s@),
{
    let v = chars_of(s);
    let mut n: usize = 0;
    let mut i: usize = 0;
    assert(s@.take(0) =~= Seq::<char>::empty());
    while i < v.len()
        invariant
            i <= v@.len(),
            v@ == s@,
            n <= i,
            n as nat == slashes(s@.take(i as int)),
        decreases v@.len() - i,
    {
        assert(s@.take(i as int + 1).drop_last() =~= s@.take(i as int));
        if v[i] == '/' {
            n += 1;
        }
        i += 1;
    }
    assert(s@.take(i as int) =~= s@);
    n
}

/// `a` is as good a choice as `b`: of a likelier kind, or, among the same kind, in fewer
/// directories, or, among as many, first in order.
pub open spec fn no_worse(a: (Source, Seq<char>), b: (Source, Seq<char>)) -> bool {
    if rank_of(a.0) != rank_of(b.0) {
        rank_of(a.0) < rank_of(b.0)
    } else if slashes(a.1) != slashes(b.1) {
        slashes(a.1) < slashes(b.1)
    } else {
        ordered(a.1, b.1)
    }
}

fn is_no_worse(a: &Member, b: &Member) -> (r: bool)
    ensures
        r == no_worse(a@, b@),
{
    let x = rank(a.source);
    let y = rank(b.source);
    if x != y {
        return x < y;
    }
    let m = count_slashes(a.name.as_str());
    let n = count_slashes(b.name.as_str());
    if m != n {
        return m < n;
    }
    in_order(a.name.as_str(), b.name.as_str())
}

/// The best choice among the first `n`.
pub open spec fn best_at(found: Seq<(Source, Seq<char>)>, n: int) -> Option<int>
    decreases n,
{
    if n <= 0 {
        None
    } else {
        match best_at(found, n - 1) {
            Some(best) if no_worse(found[best], found[n - 1]) => Some(best),
            _ => Some(n - 1),
        }
    }
}

/// The best choice is no worse than any other, and there is one wherever there is anything.
pub proof fn best_is_no_worse(found: Seq<(Source, Seq<char>)>, n: int)
    requires
        0 <= n <= found.len(),
    ensures
        match best_at(found, n) {
            Some(best) => 0 <= best < n && forall|i: int|
                0 <= i < n ==> no_worse(found[best], #[trigger] found[i]),
            None => n == 0,
        },
    decreases n,
{
    if n > 0 {
        best_is_no_worse(found, n - 1);
        let last = found[n - 1];
        ordered_either_way(last.1, last.1);
        match best_at(found, n - 1) {
            Some(best) => if !no_worse(found[best], last) {
                ordered_either_way(found[best].1, last.1);
                assert forall|i: int| 0 <= i < n implies no_worse(last, #[trigger] found[i]) by {
                    if i < n - 1 {
                        assert(no_worse(found[best], found[i]));
                        if slashes(last.1) == slashes(found[best].1) && slashes(found[best].1)
                            == slashes(found[i].1) && rank_of(last.0) == rank_of(found[best].0)
                            && rank_of(found[best].0) == rank_of(found[i].0) {
                            ordered_chains(last.1, found[best].1, found[i].1);
                        }
                    }
                }
            },
            None => {},
        }
    }
}

/// The names of what was found.
pub open spec fn found_names(found: Seq<(Source, Seq<char>)>) -> Seq<Seq<char>> {
    Seq::new(found.len(), |i: int| found[i].1)
}

/// The member that is meant by `wanted`, if any is.
fn pick_member(found: &Vec<Member>, wanted: &str) -> (r: Option<usize>)
    ensures
        match (r, picked(found_names(views(found@)), wanted@)) {
            (Some(at), Some(want)) => at == want && at < found@.len(),
            (None, None) => true,
            _ => false,
        },
{
    let ghost all = views(found@);
    let mut names: Vec<&str> = Vec::new();
    let mut i: usize = 0;
    while i < found.len()
        invariant
            i <= found@.len(),
            all == views(found@),
            names@.len() == i,
            forall|j: int| 0 <= j < i ==> (#[trigger] names@[j])@ == all[j].1,
        decreases found@.len() - i,
    {
        assert(all[i as int] == found@[i as int]@);
        names.push(found[i].name.as_str());
        i += 1;
    }
    assert(views(names@) =~= found_names(all));
    pick(&names, wanted)
}

fn best_member(found: &Vec<Member>) -> (r: Option<usize>)
    ensures
        match (r, best_at(views(found@), found@.len() as int)) {
            (Some(at), Some(want)) => at == want && at < found@.len(),
            (None, None) => true,
            _ => false,
        },
{
    let ghost all = views(found@);
    let mut best: Option<usize> = None;
    let mut n: usize = 0;
    while n < found.len()
        invariant
            n <= found@.len(),
            all == views(found@),
            match (best, best_at(all, n as int)) {
                (Some(at), Some(want)) => at == want && at < n,
                (None, None) => true,
                _ => false,
            },
        decreases found@.len() - n,
    {
        assert(all[n as int] == found@[n as int]@);
        let keep = match best {
            Some(at) => {
                assert(all[at as int] == found@[at as int]@);
                is_no_worse(&found[at], &found[n])
            },
            None => false,
        };
        if !keep {
            best = Some(n);
        }
        n += 1;
    }
    best
}

// Resolving.

/// Why a dataset cannot be found.
#[derive(Debug, PartialEq)]
pub enum ResolveError {
    NotFound(String),
    InvalidRoot(String),
    EmptyArchive(String),
    UnreadableArchive(String),
    PathNotFound { path: String, candidates: Vec<String> },
    NotAnArchive(String),
}

/// What such an error is.
pub enum ResolveFault {
    NotFound(Seq<char>),
    InvalidRoot(Seq<char>),
    EmptyArchive(Seq<char>),
    UnreadableArchive(Seq<char>),
    PathNotFound { path: Seq<char>, candidates: Seq<Seq<char>> },
    NotAnArchive(Seq<char>),
}

impl View for ResolveError {
    type V = ResolveFault;

    open spec fn view(&self) -> ResolveFault {
        match self {
            ResolveError::NotFound(n) => ResolveFault::NotFound(n@),
            ResolveError::InvalidRoot(p) => ResolveFault::InvalidRoot(p@),
            ResolveError::EmptyArchive(n) => ResolveFault::EmptyArchive(n@),
            ResolveError::UnreadableArchive(n) => ResolveFault::UnreadableArchive(n@),
            ResolveError::PathNotFound { path, candidates } => ResolveFault::PathNotFound {
                path: path@,
                candidates: views(candidates@),
            },
            ResolveError::NotAnArchive(n) => ResolveFault::NotAnArchive(n@),
        }
    }
}

/// What went wrong, in words.
pub open spec fn resolve_message(e: ResolveFault) -> Seq<char> {
    match e {
        ResolveFault::NotFound(n) => "dataset not found: "@ + n,
        ResolveFault::InvalidRoot(p) => "data root is not a directory: "@ + p,
        ResolveFault::EmptyArchive(n) => n + " contains nothing duckxy can read"@,
        ResolveFault::UnreadableArchive(n) => n + " could not be read"@,
        ResolveFault::PathNotFound { path, candidates } => "no such path in archive: "@ + path
            + ". available: "@ + joined_by(candidates, ", "@),
        ResolveFault::NotAnArchive(n) => n + " is not an archive, so it has no paths to select"@,
    }
}

impl ResolveError {
    /// What went wrong, in words.
    pub fn message(&self) -> (r: String)
        ensures
            r@ == resolve_message(self@),
    {
        match self {
            ResolveError::NotFound(n) => joined("dataset not found: ", n.as_str()),
            ResolveError::InvalidRoot(p) => joined("data root is not a directory: ", p.as_str()),
            ResolveError::EmptyArchive(n) => joined(
                n.as_str(),
                " contains nothing duckxy can read",
            ),
            ResolveError::UnreadableArchive(n) => joined(n.as_str(), " could not be read"),
            ResolveError::PathNotFound { path, candidates } => {
                let missing = joined("no such path in archive: ", path.as_str());
                let shown = join(candidates, ", ");
                joined(joined(missing.as_str(), ". available: ").as_str(), shown.as_str())
            },
            ResolveError::NotAnArchive(n) => joined(
                n.as_str(),
                " is not an archive, so it has no paths to select",
            ),
        }
    }
}

/// The first of some names, as many as are shown.
pub open spec fn shown_names(found: Seq<(Source, Seq<char>)>) -> Seq<Seq<char>> {
    let names = found_names(found);
    if names.len() <= MAX_CANDIDATES {
        names
    } else {
        names.take(MAX_CANDIDATES as int)
    }
}

fn show_names(found: &Vec<Member>) -> (r: Vec<String>)
    ensures
        views(r@) == shown_names(views(found@)),
{
    let ghost all = views(found@);
    let mut out: Vec<String> = Vec::new();
    while out.len() < found.len() && out.len() < MAX_CANDIDATES
        invariant
            out@.len() <= found@.len(),
            out@.len() <= MAX_CANDIDATES,
            all == views(found@),
            forall|j: int| 0 <= j < out@.len() ==> (#[trigger] out@[j])@ == all[j].1,
        decreases found@.len() - out@.len(),
    {
        assert(all[out@.len() as int] == found@[out@.len() as int]@);
        out.push(found[out.len()].name.clone());
    }
    assert(views(out@) =~= shown_names(all));
    out
}

/// What the database is told to read: a file, or a member of it where it is an archive. `path` is
/// where the file is, if that can be written down, `label` is its name, and `members` are the
/// names of what it holds, if they could be read.
pub open spec fn chosen(
    label: Seq<char>,
    path: Option<Seq<char>>,
    archive: bool,
    members: Option<Seq<Seq<char>>>,
    wanted: Option<Seq<char>>,
) -> Result<Seq<char>, ResolveFault> {
    match path {
        None => Err(ResolveFault::NotFound(label)),
        Some(path) => if !archive {
            match wanted {
                Some(_) => Err(ResolveFault::NotAnArchive(label)),
                None => Ok(path),
            }
        } else {
            match members {
                None => Err(ResolveFault::UnreadableArchive(label)),
                Some(names) => {
                    let found = found_among(names, Seq::empty());
                    let at = match wanted {
                        Some(want) => picked(found_names(found), want),
                        None => best_at(found, found.len() as int),
                    };
                    match (at, wanted) {
                        (Some(at), _) => Ok("/vsizip/"@ + path + "/"@ + found[at].1),
                        (None, Some(want)) => Err(
                            ResolveFault::PathNotFound {
                                path: want,
                                candidates: shown_names(found),
                            },
                        ),
                        (None, None) => Err(ResolveFault::EmptyArchive(label)),
                    }
                },
            }
        },
    }
}

/// What the database is told to read is the file itself, or something that was found in it.
pub proof fn chosen_lies_in_the_file(
    label: Seq<char>,
    path: Seq<char>,
    archive: bool,
    members: Option<Seq<Seq<char>>>,
    wanted: Option<Seq<char>>,
)
    ensures
        match (chosen(label, Some(path), archive, members, wanted), members) {
            (Ok(source), _) if !archive => wanted is None && source == path,
            (Ok(source), Some(names)) => exists|member: (Source, Seq<char>)| #[trigger]
                comes_from(names, member) && source == "/vsizip/"@ + path + "/"@ + member.1,
            (Ok(_), None) => false,
            (Err(_), _) => true,
        },
{
    if archive && members is Some {
        let names = members->0;
        let found = found_among(names, Seq::empty());
        each_is_found_once(names, Seq::empty());
        match wanted {
            Some(want) => {
                picked_is_the_wanted_one(found_names(found), want);
            },
            None => {
                best_is_no_worse(found, found.len() as int);
            },
        }
        let at = match wanted {
            Some(want) => picked(found_names(found), want),
            None => best_at(found, found.len() as int),
        };
        if at is Some {
            assert(comes_from(names, found[at->0]));
        }
    }
}

/// The member of an archive that is meant, as the database is told to read it.
pub fn choose_member(label: &str, path: &str, names: &Vec<String>, wanted: Option<&str>) -> (r:
    Result<String, ResolveError>)
    ensures
        match (
            r,
            chosen(
                label@,
                Some(path@),
                true,
                Some(views(names@)),
                match wanted {
                    Some(want) => Some(want@),
                    None => None,
                },
            ),
        ) {
            (Ok(source), Ok(want)) => source@ == want,
            (Err(e), Err(want)) => e@ == want,
            _ => false,
        },
{
    let found = archive_paths(names);
    let at = match wanted {
        Some(want) => match pick_member(&found, want) {
            Some(at) => at,
            None => {
                return Err(
                    ResolveError::PathNotFound {
                        path: want.to_owned(),
                        candidates: show_names(&found),
                    },
                );
            },
        },
        None => match best_member(&found) {
            Some(at) => at,
            None => {
                return Err(ResolveError::EmptyArchive(label.to_owned()));
            },
        },
    };
    assert(views(found@)[at as int] == found@[at as int]@);
    let inside = joined(joined("/vsizip/", path).as_str(), "/");
    Ok(joined(inside.as_str(), found[at].name.as_str()))
}

/// Where a file of a directory is.
pub open spec fn path_in(root: Seq<char>, name: Seq<char>) -> Seq<char> {
    if name.len() > 0 && name[0] == '/' {
        name
    } else if root.len() == 0 || root.last() == '/' {
        root + name
    } else {
        root + "/"@ + name
    }
}

fn join_path(root: &str, name: &str) -> (r: String)
    ensures
        r@ == path_in(root@, name@),
{
    let head = chars_of(root);
    let tail = chars_of(name);
    if tail.len() > 0 && tail[0] == '/' {
        name.to_owned()
    } else if head.len() == 0 || head[head.len() - 1] == '/' {
        joined(root, name)
    } else {
        joined(joined(root, "/").as_str(), name)
    }
}

/// What a directory holds: where it is, if that can be written down, and its files.
pub struct Listing {
    pub root: Option<String>,
    pub entries: Vec<Entry>,
}

/// A directory of datasets.
#[derive(Debug, Clone)]
pub struct DatasetRoot {
    pub root: String,
}

impl DatasetRoot {
    /// The directory at a path.
    pub fn new(root: String) -> (r: DatasetRoot)
        ensures
            r.root@ == root@,
    {
        DatasetRoot { root }
    }

    /// The path of the directory.
    pub fn root(&self) -> (r: &str)
        ensures
            r@ == self.root@,
    {
        self.root.as_str()
    }

    /// What the database is told to read for a dataset, or for a path inside it where it is an
    /// archive. `listing` is what the directory holds, if it could be read, and `members` tells the
    /// names of what an archive holds, if they can be read.
    pub fn resolve<F: FnOnce(&str) -> Option<Vec<String>>>(
        &self,
        listing: Option<Listing>,
        name: &str,
        path: Option<&str>,
        members: F,
    ) -> (r: Result<String, ResolveError>)
        requires
            forall|file: &str| call_requires(members, (file,)),
        ensures
            match listing {
                None => r matches Err(e) && e@ == ResolveFault::InvalidRoot(self.root@),
                Some(held) => match located(views(held.entries@), name@, 0) {
                    None => r matches Err(e) && e@ == ResolveFault::NotFound(name@),
                    Some((label, archive)) => {
                        let file = match held.root {
                            Some(root) => Some(path_in(root@, label)),
                            None => None,
                        };
                        let wanted = match path {
                            Some(path) => Some(path@),
                            None => None,
                        };
                        if archive && file is Some {
                            exists|at: &str, names: Option<Vec<String>>| #[trigger]
                                call_ensures(members, (at,), names) && at@ == file->0 && resolves(
                                    r,
                                    chosen(
                                        label,
                                        file,
                                        true,
                                        match names {
                                            Some(names) => Some(views(names@)),
                                            None => None,
                                        },
                                        wanted,
                                    ),
                                )
                        } else {
                            resolves(r, chosen(label, file, archive, None, wanted))
                        }
                    },
                },
            },
    {
        let held = match listing {
            Some(held) => held,
            None => {
                return Err(ResolveError::InvalidRoot(self.root.clone()));
            },
        };
        let (label, archive) = match locate(held.entries.as_slice(), name) {
            Some(found) => found,
            None => {
                return Err(ResolveError::NotFound(name.to_owned()));
            },
        };
        let file = match held.root {
            Some(root) => join_path(root.as_str(), label.as_str()),
            None => {
                return Err(ResolveError::NotFound(label));
            },
        };
        if !archive {
            return match path {
                Some(_) => Err(ResolveError::NotAnArchive(label)),
                None => Ok(file),
            };
        }
        match members(file.as_str()) {
            Some(names) => choose_member(label.as_str(), file.as_str(), &names, path),
            None => Err(ResolveError::UnreadableArchive(label)),
        }
    }
}

/// A result is the text or the error that it should be.
pub open spec fn resolves(r: Result<String, ResolveError>, want: Result<Seq<char>, ResolveFault>) -> bool {
    match (r, want) {
        (Ok(source), Ok(want)) => source@ == want,
        (Err(e), Err(want)) => e@ == want,
        _ => false,
    }
}

// What finding a dataset is for.

proof fn dotted(path: Seq<char>, ext: Seq<char>, dot_ext: Seq<char>)
    requires
        dot_ext == seq!['.'] + ext,
    ensures
        ends_in(path, ext) <==> ends(lowered(path), dot_ext),
{
    let lower = lowered(path);
    let n = lower.len() - ext.len();
    if ends_in(path, ext) {
        assert(lower.subrange(n - 1, lower.len() as int) =~= dot_ext) by {
            assert(lower.subrange(n - 1, lower.len() as int) =~= seq![lower[n - 1]] + lower.skip(n));
        }
    }
    if ends(lower, dot_ext) {
        let tail = lower.subrange(n - 1, lower.len() as int);
        assert(dot_ext.len() == ext.len() + 1 && dot_ext[0] == '.');
        assert(tail == dot_ext) by {
            assert(lower.len() - dot_ext.len() == n - 1);
        }
        assert(tail[0] == lower[n - 1]);
        assert(lower.skip(n) =~= tail.skip(1));
        assert(dot_ext.skip(1) =~= ext);
    }
}

/// What a file that can be read ends in, the likeliest first.
pub open spec fn endings() -> Seq<Seq<char>> {
    seq![
        ".geojson"@,
        ".gpkg"@,
        ".fgb"@,
        ".kml"@,
        ".gml"@,
        ".shp"@,
        ".gdb"@,
        ".json"@,
    ]
}

/// Which of the endings a path has, in either case: its place among them.
pub open spec fn has_ending(path: Seq<char>, k: int) -> bool {
    0 <= k < endings().len() && ends(lowered(path), endings()[k])
}

proof fn endings_are_these(path: Seq<char>)
    ensures
        has_ending(path, 0) <==> ends_in(path, "geojson"@),
        has_ending(path, 1) <==> ends_in(path, "gpkg"@),
        has_ending(path, 2) <==> ends_in(path, "fgb"@),
        has_ending(path, 3) <==> ends_in(path, "kml"@),
        has_ending(path, 4) <==> ends_in(path, "gml"@),
        has_ending(path, 5) <==> ends_in(path, "shp"@),
        has_ending(path, 6) <==> ends_in(path, "gdb"@),
        has_ending(path, 7) <==> ends_in(path, "json"@),
        forall|k: int, j: int| has_ending(path, k) && has_ending(path, j) ==> k == j,
{
    let all = endings();
    reveal_strlit("geojson");
    reveal_strlit(".geojson");
    reveal_strlit("gpkg");
    reveal_strlit(".gpkg");
    reveal_strlit("fgb");
    reveal_strlit(".fgb");
    reveal_strlit("kml");
    reveal_strlit(".kml");
    reveal_strlit("gml");
    reveal_strlit(".gml");
    reveal_strlit("shp");
    reveal_strlit(".shp");
    reveal_strlit("gdb");
    reveal_strlit(".gdb");
    reveal_strlit("json");
    reveal_strlit(".json");
    assert(all[0] == ".geojson"@);
    assert(all[1] == ".gpkg"@);
    assert(all[2] == ".fgb"@);
    assert(all[3] == ".kml"@);
    assert(all[4] == ".gml"@);
    assert(all[5] == ".shp"@);
    assert(all[6] == ".gdb"@);
    assert(all[7] == ".json"@);
    assert(".geojson"@ =~= seq!['.'] + "geojson"@);
    dotted(path, "geojson"@, ".geojson"@);
    assert(".gpkg"@ =~= seq!['.'] + "gpkg"@);
    dotted(path, "gpkg"@, ".gpkg"@);
    assert(".fgb"@ =~= seq!['.'] + "fgb"@);
    dotted(path, "fgb"@, ".fgb"@);
    assert(".kml"@ =~= seq!['.'] + "kml"@);
    dotted(path, "kml"@, ".kml"@);
    assert(".gml"@ =~= seq!['.'] + "gml"@);
    dotted(path, "gml"@, ".gml"@);
    assert(".shp"@ =~= seq!['.'] + "shp"@);
    dotted(path, "shp"@, ".shp"@);
    assert(".gdb"@ =~= seq!['.'] + "gdb"@);
    dotted(path, "gdb"@, ".gdb"@);
    assert(".json"@ =~= seq!['.'] + "json"@);
    dotted(path, "json"@, ".json"@);
    let lower = lowered(path);
    let n = lower.len() as int;
    assert forall|k: int, j: int| has_ending(path, k) && has_ending(path, j) implies k == j by {
        let x = all[k];
        let y = all[j];
        assert(lower.subrange(n - x.len(), n) == x && lower.subrange(n - y.len(), n) == y);
        if k != j {
            assert(lower[n - x.len()] == x[0] && lower[n - y.len()] == y[0]);
            let i = x.len() - 2;
            let h = y.len() - 2;
            assert(lower[n - 2] == x[i] && lower[n - 2] == y[h]);
            assert(lower[n - 1] == x[i + 1] && lower[n - 1] == y[h + 1]);
            assert(lower[n - 3] == x[i - 1] && lower[n - 3] == y[h - 1]);
            assert(lower[n - 4] == x[i - 2] && lower[n - 4] == y[h - 2]);
            if x.len() > 4 && y.len() > 4 {
                assert(lower[n - 5] == x[i - 3] && lower[n - 5] == y[h - 3]);
            }
        }
    }
}

/// A path names a file that can be read exactly where it has one of the endings, in either case, and
/// its kind is the one of that ending.
pub proof fn files_are_told_by_their_ending(path: Seq<char>)
    ensures
        is_source(path) <==> exists|k: int| has_ending(path, k),
        has_ending(path, 0) <==> Source::from_path(path, 0) == Some(Source::GeoJson),
        has_ending(path, 1) <==> Source::from_path(path, 0) == Some(Source::Gpkg),
        has_ending(path, 2) <==> Source::from_path(path, 0) == Some(Source::Fgb),
        has_ending(path, 3) <==> Source::from_path(path, 0) == Some(Source::Kml),
        has_ending(path, 4) <==> Source::from_path(path, 0) == Some(Source::Gml),
        has_ending(path, 5) <==> Source::from_path(path, 0) == Some(Source::Shp),
        has_ending(path, 6) <==> Source::from_path(path, 0) == Some(Source::Gdb),
        has_ending(path, 7) <==> Source::from_path(path, 0) == Some(Source::Json),
{
    endings_are_these(path);
    reveal_with_fuel(Source::from_path, 9);
    let all = Source::spec_all();
    assert(all[0] == Source::GeoJson);
    assert(all[1] == Source::Gpkg);
    assert(all[2] == Source::Fgb);
    assert(all[3] == Source::Kml);
    assert(all[4] == Source::Gml);
    assert(all[5] == Source::Shp);
    assert(all[6] == Source::Gdb);
    assert(all[7] == Source::Json);
    if is_source(path) {
        let source = Source::from_path(path, 0)->0;
        if source == Source::GeoJson {
            assert(has_ending(path, 0));
        }
        if source == Source::Gpkg {
            assert(has_ending(path, 1));
        }
        if source == Source::Fgb {
            assert(has_ending(path, 2));
        }
        if source == Source::Kml {
            assert(has_ending(path, 3));
        }
        if source == Source::Gml {
            assert(has_ending(path, 4));
        }
        if source == Source::Shp {
            assert(has_ending(path, 5));
        }
        if source == Source::Gdb {
            assert(has_ending(path, 6));
        }
        if source == Source::Json {
            assert(has_ending(path, 7));
        }
    }
    if exists|k: int| has_ending(path, k) {
        let k = choose|k: int| has_ending(path, k);
        assert(0 <= k < 8);
        assert(has_ending(path, 0) || has_ending(path, 1) || has_ending(path, 2) || has_ending(path, 3) || has_ending(path, 4) || has_ending(path, 5) || has_ending(path, 6) || has_ending(path, 7));
    }
}

/// What the file that holds a dataset is called after the dataset's name, the likeliest first: a file
/// by itself, one in an archive that is named after it, or an archive.
pub open spec fn file_endings() -> Seq<Seq<char>> {
    seq![
        ".geojson"@,
        ".gpkg"@,
        ".fgb"@,
        ".kml"@,
        ".gml"@,
        ".shp"@,
        ".gdb"@,
        ".json"@,
        ".geojson.zip"@,
        ".gpkg.zip"@,
        ".fgb.zip"@,
        ".kml.zip"@,
        ".gml.zip"@,
        ".shp.zip"@,
        ".gdb.zip"@,
        ".json.zip"@,
        ".zip"@,
    ]
}

proof fn candidates_are_these(name: Seq<char>)
    ensures
        Candidate::spec_all().len() == 17,
        forall|k: int|
            0 <= k < 17 ==> (#[trigger] Candidate::spec_all()[k]).spec_filename(name) == name
                + file_endings()[k],
        forall|k: int|
            0 <= k < 17 ==> ((#[trigger] Candidate::spec_all()[k]) == Candidate::Plain(Source::Gdb))
                == (k == 6) && (Candidate::spec_all()[k] is Plain) == (k < 8),
{
    reveal_strlit(".");
    reveal_strlit("geojson");
    reveal_strlit("gpkg");
    reveal_strlit("fgb");
    reveal_strlit("kml");
    reveal_strlit("gml");
    reveal_strlit("shp");
    reveal_strlit("gdb");
    reveal_strlit("json");
    reveal_strlit(".geojson");
    reveal_strlit(".gpkg");
    reveal_strlit(".fgb");
    reveal_strlit(".kml");
    reveal_strlit(".gml");
    reveal_strlit(".shp");
    reveal_strlit(".gdb");
    reveal_strlit(".json");
    reveal_strlit(".geojson.zip");
    reveal_strlit(".gpkg.zip");
    reveal_strlit(".fgb.zip");
    reveal_strlit(".kml.zip");
    reveal_strlit(".gml.zip");
    reveal_strlit(".shp.zip");
    reveal_strlit(".gdb.zip");
    reveal_strlit(".json.zip");
    reveal_strlit(".zip");
    let all = Candidate::spec_all();
    let ends = file_endings();
    assert(all[0] == Candidate::Plain(Source::GeoJson) && ends[0] == ".geojson"@);
    assert(all[1] == Candidate::Plain(Source::Gpkg) && ends[1] == ".gpkg"@);
    assert(all[2] == Candidate::Plain(Source::Fgb) && ends[2] == ".fgb"@);
    assert(all[3] == Candidate::Plain(Source::Kml) && ends[3] == ".kml"@);
    assert(all[4] == Candidate::Plain(Source::Gml) && ends[4] == ".gml"@);
    assert(all[5] == Candidate::Plain(Source::Shp) && ends[5] == ".shp"@);
    assert(all[6] == Candidate::Plain(Source::Gdb) && ends[6] == ".gdb"@);
    assert(all[7] == Candidate::Plain(Source::Json) && ends[7] == ".json"@);
    assert(all[8] == Candidate::Zipped(Source::GeoJson) && ends[8] == ".geojson.zip"@);
    assert(all[9] == Candidate::Zipped(Source::Gpkg) && ends[9] == ".gpkg.zip"@);
    assert(all[10] == Candidate::Zipped(Source::Fgb) && ends[10] == ".fgb.zip"@);
    assert(all[11] == Candidate::Zipped(Source::Kml) && ends[11] == ".kml.zip"@);
    assert(all[12] == Candidate::Zipped(Source::Gml) && ends[12] == ".gml.zip"@);
    assert(all[13] == Candidate::Zipped(Source::Shp) && ends[13] == ".shp.zip"@);
    assert(all[14] == Candidate::Zipped(Source::Gdb) && ends[14] == ".gdb.zip"@);
    assert(all[15] == Candidate::Zipped(Source::Json) && ends[15] == ".json.zip"@);
    assert(all[16] == Candidate::Archive && ends[16] == ".zip"@);
    assert(".geojson"@ =~= "."@ + "geojson"@);
    assert(".gpkg"@ =~= "."@ + "gpkg"@);
    assert(".fgb"@ =~= "."@ + "fgb"@);
    assert(".kml"@ =~= "."@ + "kml"@);
    assert(".gml"@ =~= "."@ + "gml"@);
    assert(".shp"@ =~= "."@ + "shp"@);
    assert(".gdb"@ =~= "."@ + "gdb"@);
    assert(".json"@ =~= "."@ + "json"@);
    assert(".geojson.zip"@ =~= "."@ + "geojson"@ + ".zip"@);
    assert(".gpkg.zip"@ =~= "."@ + "gpkg"@ + ".zip"@);
    assert(".fgb.zip"@ =~= "."@ + "fgb"@ + ".zip"@);
    assert(".kml.zip"@ =~= "."@ + "kml"@ + ".zip"@);
    assert(".gml.zip"@ =~= "."@ + "gml"@ + ".zip"@);
    assert(".shp.zip"@ =~= "."@ + "shp"@ + ".zip"@);
    assert(".gdb.zip"@ =~= "."@ + "gdb"@ + ".zip"@);
    assert(".json.zip"@ =~= "."@ + "json"@ + ".zip"@);
    assert forall|k: int| 0 <= k < 17 implies (#[trigger] all[k]).spec_filename(name) == name
        + ends[k] by {
        assert(all[k].spec_filename(name) =~= name + ends[k]);
    }
}

/// A dataset is found in the file that is called after it, with the likeliest ending that any file
/// has: the one of that very name, if it is a directory exactly where it ends in `.gdb`. It is an
/// archive exactly where it ends in `.zip`.
pub proof fn datasets_are_found_by_name(entries: Seq<EntryModel>, name: Seq<char>, k: int, i: int)
    requires
        0 <= k < 17,
        0 <= i < entries.len(),
        entries[i].name == name + file_endings()[k],
        forall|h: int|
            0 <= h < entries.len() && (#[trigger] entries[h]).name == name + file_endings()[k]
                ==> entries[h].is_dir == (k == 6),
        forall|j: int, h: int|
            0 <= j < k && 0 <= h < entries.len() ==> lowered((#[trigger] entries[h]).name)
                != lowered(name + #[trigger] file_endings()[j]),
    ensures
        located(entries, name, 0) == Some((name + file_endings()[k], k >= 8)),
{
    candidates_are_these(name);
    let names = entry_names(entries);
    let wanted = name + file_endings()[k];
    assert(names[i] == wanted);
    picked_is_the_wanted_one(names, wanted);
    assert(names.contains(wanted));
    let at = picked(names, wanted)->0;
    assert(entries[at].name == wanted);
    passed_over(entries, name, 0, k);
    assert(Candidate::spec_all()[k].spec_filename(name) == wanted);
}

proof fn passed_over(entries: Seq<EntryModel>, name: Seq<char>, from: int, k: int)
    requires
        0 <= from <= k < 17,
        forall|j: int, h: int|
            from <= j < k && 0 <= h < entries.len() ==> lowered((#[trigger] entries[h]).name)
                != lowered(name + #[trigger] file_endings()[j]),
    ensures
        located(entries, name, from) == located(entries, name, k),
    decreases k - from,
{
    candidates_are_these(name);
    if from < k {
        let names = entry_names(entries);
        let wanted = name + file_endings()[from];
        assert(Candidate::spec_all()[from].spec_filename(name) == wanted);
        picked_is_the_wanted_one(names, wanted);
        match picked(names, wanted) {
            Some(at) => {
                assert(names[at] == entries[at].name);
            },
            None => {},
        }
        passed_over(entries, name, from + 1, k);
    }
}

/// A dataset is not found exactly where no file is called after it, in either case, with any of the
/// endings and of the kind that the ending asks for.
pub proof fn nothing_else_is_a_dataset(entries: Seq<EntryModel>, name: Seq<char>)
    ensures
        (forall|j: int, h: int|
            0 <= j < 17 && 0 <= h < entries.len() ==> lowered((#[trigger] entries[h]).name)
                != lowered(name + #[trigger] file_endings()[j])) ==> located(entries, name, 0)
            is None,
        located(entries, name, 0) matches Some((file, archive)) ==> exists|j: int, h: int|
            #![trigger entries[h], file_endings()[j]]
            0 <= j < 17 && 0 <= h < entries.len() && entries[h].name == file && lowered(file)
                == lowered(name + file_endings()[j]) && entries[h].is_dir == (j == 6) && archive
                == (j >= 8),
{
    candidates_are_these(name);
    if forall|j: int, h: int|
        0 <= j < 17 && 0 <= h < entries.len() ==> lowered((#[trigger] entries[h]).name) != lowered(
            name + #[trigger] file_endings()[j],
        ) {
        passed_over(entries, name, 0, 16);
        let names = entry_names(entries);
        let wanted = name + file_endings()[16];
        assert(Candidate::spec_all()[16].spec_filename(name) == wanted);
        picked_is_the_wanted_one(names, wanted);
        match picked(names, wanted) {
            Some(at) => {
                assert(names[at] == entries[at].name);
            },
            None => {},
        }
        assert(located(entries, name, 17) is None);
    }
    located_file_is_listed(entries, name, 0);
    match located(entries, name, 0) {
        Some((file, archive)) => {
            let (h, j) = choose|h: int, j: int|
                #![trigger entries[h], Candidate::spec_all()[j]]
                {
                    let candidate = Candidate::spec_all()[j];
                    &&& 0 <= h < entries.len()
                    &&& 0 <= j < Candidate::spec_all().len()
                    &&& entries[h].name == file
                    &&& entries[h].is_dir == (candidate == Candidate::Plain(Source::Gdb))
                    &&& archive == !(candidate is Plain)
                    &&& lowered(file) == lowered(candidate.spec_filename(name))
                };
            assert(Candidate::spec_all()[j].spec_filename(name) == name + file_endings()[j]);
            assert(entries[h].name == file);
        },
        None => {},
    }
}

/// A file lies in its directory.
pub proof fn files_lie_in_their_directory(root: Seq<char>, name: Seq<char>)
    requires
        root.len() > 0,
        root.last() != '/',
        name.len() > 0,
        name[0] != '/',
    ensures
        path_in(root, name) == root + seq!['/'] + name,
{
    reveal_strlit("/");
    assert("/"@ =~= seq!['/']);
}

/// The place of a kind of file among them, the likeliest first.
pub open spec fn place_of(source: Source) -> int {
    match source {
        Source::GeoJson => 0,
        Source::Gpkg => 1,
        Source::Fgb => 2,
        Source::Kml => 3,
        Source::Gml => 4,
        Source::Shp => 5,
        Source::Gdb => 6,
        Source::Json => 7,
    }
}

/// How many directories a member lies in.
pub open spec fn directories_of(s: Seq<char>) -> nat {
    s.filter(|c: char| c == '/').len()
}

proof fn slashes_are_directories(s: Seq<char>)
    ensures
        slashes(s) == directories_of(s),
    decreases s.len(),
{
    reveal(Seq::filter);
    if s.len() > 0 {
        slashes_are_directories(s.drop_last());
    }
}

/// A member's name, after its last slash, begins with a dot and an underscore.
pub open spec fn is_left_over(name: Seq<char>) -> bool {
    exists|i: int|
        #[trigger] stands_at(name, "._"@, i) && (i == 0 || name[i - 1] == '/') && forall|j: int|
            i <= j < name.len() ==> #[trigger] name[j] != '/'
}

proof fn last_part_is(name: Seq<char>)
    ensures
        exists|i: int|
            0 <= i <= name.len() && last_part(name) == #[trigger] name.skip(i) && (i == 0 || name[i
                - 1] == '/') && forall|j: int| i <= j < name.len() ==> #[trigger] name[j] != '/',
    decreases name.len(),
{
    if name.len() == 0 || name.last() == '/' {
        let i = name.len() as int;
        assert(name.skip(i) =~= Seq::empty());
    } else {
        let before = name.drop_last();
        last_part_is(before);
        let i = choose|i: int|
            0 <= i <= before.len() && last_part(before) == #[trigger] before.skip(i) && (i == 0
                || before[i - 1] == '/') && forall|j: int|
                i <= j < before.len() ==> #[trigger] before[j] != '/';
        assert(name.skip(i) =~= before.skip(i).push(name.last()));
        if i > 0 {
            assert(name[i - 1] == before[i - 1]);
        }
        assert forall|j: int| i <= j < name.len() implies #[trigger] name[j] != '/' by {
            if j < before.len() {
                assert(name[j] == before[j]);
            }
        }
    }
}

proof fn left_over_is_last(name: Seq<char>)
    ensures
        begins(last_part(name), "._"@) <==> is_left_over(name),
{
    last_part_is(name);
    reveal_strlit("._");
    let i = choose|i: int|
        0 <= i <= name.len() && last_part(name) == #[trigger] name.skip(i) && (i == 0 || name[i - 1]
            == '/') && forall|j: int| i <= j < name.len() ==> #[trigger] name[j] != '/';
    let last = name.skip(i);
    if begins(last, "._"@) {
        assert(name.subrange(i, i + 2) =~= last.subrange(0, 2));
        assert(stands_at(name, "._"@, i));
    }
    if is_left_over(name) {
        let k = choose|k: int|
            #[trigger] stands_at(name, "._"@, k) && (k == 0 || name[k - 1] == '/') && forall|j: int|
                k <= j < name.len() ==> #[trigger] name[j] != '/';
        if k < i {
            assert(name[i - 1] != '/');
        } else if k > i {
            assert(name[k - 1] != '/');
        }
        assert(last.subrange(0, 2) =~= name.subrange(i, i + 2));
    }
}

proof fn directory_is_first(s: Seq<char>, from: int)
    requires
        0 <= from <= s.len() + 1,
    ensures
        ({
            let end = directory_end(s, from);
            &&& from <= end <= s.len() + 1
            &&& end <= s.len() ==> (end == s.len() || s[end] == '/') && Source::from_path(
                s.take(end),
                0,
            ) == Some(Source::Gdb)
            &&& forall|j: int|
                from <= j < end && (j == s.len() || s[j] == '/') ==> Source::from_path(
                    #[trigger] s.take(j),
                    0,
                ) != Some(Source::Gdb)
        }),
    decreases s.len() + 1 - from,
{
    if from <= s.len() && !((from == s.len() || s[from] == '/') && Source::from_path(
        s.take(from),
        0,
    ) == Some(Source::Gdb)) {
        directory_is_first(s, from + 1);
    }
}

/// What can be read of a member of an archive is the member itself where its name has one of the
/// endings, or else the first directory on its way that ends in `.gdb`; nothing of what an archiver
/// left for itself, and nothing of any other member.
pub proof fn members_are_told_by_their_name(name: Seq<char>, d: int)
    requires
        name.len() > 0,
        name.last() != '/',
    ensures
        begins(name, "__MACOSX/"@) || is_left_over(name) ==> found_in(name) is None,
        !begins(name, "__MACOSX/"@) && !is_left_over(name) ==> {
            &&& is_source(name) ==> (found_in(name) matches Some((kind, member)) && member == name
                && has_ending(name, place_of(kind)))
            &&& !is_source(name) && 0 <= d < name.len() && name[d] == '/' && has_ending(
                name.take(d),
                6,
            ) && (forall|j: int|
                0 <= j < d && name[j] == '/' ==> !has_ending(#[trigger] name.take(j), 6))
                ==> found_in(name) == Some((Source::Gdb, name.take(d)))
            &&& !is_source(name) && (forall|j: int|
                0 <= j < name.len() && name[j] == '/' ==> !has_ending(#[trigger] name.take(j), 6))
                ==> found_in(name) is None
        },
{
    left_over_is_last(name);
    files_are_told_by_their_ending(name);
    directory_is_first(name, 0);
    assert(without_end_slashes(name) == name);
    let end = directory_end(name, 0);
    assert(name.take(name.len() as int) =~= name);
    assert forall|j: int| 0 <= j <= name.len() implies (has_ending(#[trigger] name.take(j), 6)
        <==> Source::from_path(name.take(j), 0) == Some(Source::Gdb)) by {
        files_are_told_by_their_ending(name.take(j));
    }
    if !is_source(name) {
        assert(Source::from_path(name.take(name.len() as int), 0) is None);
        if 0 <= d < name.len() && name[d] == '/' && has_ending(name.take(d), 6) {
            assert(Source::from_path(name.take(d), 0) == Some(Source::Gdb));
            assert(end <= d);
            if end < d {
                assert(has_ending(name.take(end), 6));
            }
        }
        if end <= name.len() {
            assert(has_ending(name.take(end), 6));
        }
    }
}

/// One choice is likelier than another, or as likely: a likelier kind, then fewer directories on its
/// way, then the order of their names.
pub open spec fn is_likelier(a: (Source, Seq<char>), b: (Source, Seq<char>)) -> bool {
    ||| place_of(a.0) < place_of(b.0)
    ||| place_of(a.0) == place_of(b.0) && directories_of(a.1) < directories_of(b.1)
    ||| place_of(a.0) == place_of(b.0) && directories_of(a.1) == directories_of(b.1) && ordered(
        a.1,
        b.1,
    )
}

proof fn kind_goes_with_name(name: Seq<char>)
    ensures
        found_in(name) matches Some((kind, member)) ==> Source::from_path(member, 0) == Some(kind),
{
    let trimmed = without_end_slashes(name);
    directory_is_first(trimmed, 0);
}

proof fn found_is_there(names: Seq<Seq<char>>, x: (Source, Seq<char>))
    requires
        comes_from(names, x),
    ensures
        found_among(names, Seq::empty()).contains(x),
{
    let found = found_among(names, Seq::empty());
    each_is_found_once(names, Seq::empty());
    let k = choose|k: int| 0 <= k < names.len() && found_in(#[trigger] names[k]) == Some(x);
    assert(is_found(found, x.1));
    let i = choose|i: int| 0 <= i < found.len() && (#[trigger] found[i]).1 == x.1;
    assert(comes_from(names, found[i]));
    let h = choose|h: int| 0 <= h < names.len() && found_in(#[trigger] names[h]) == Some(found[i]);
    kind_goes_with_name(names[k]);
    kind_goes_with_name(names[h]);
    assert(found[i] == x);
}

/// Without a path, what is read of an archive is the likeliest of all that can be read of its
/// members; where nothing can be, the archive is reported as empty.
pub proof fn archives_are_read_by_their_likeliest_member(
    label: Seq<char>,
    path: Seq<char>,
    names: Seq<Seq<char>>,
)
    ensures
        match chosen(label, Some(path), true, Some(names), None) {
            Ok(source) => exists|m: (Source, Seq<char>)| #[trigger]
                comes_from(names, m) && source == "/vsizip/"@ + path + "/"@ + m.1 && forall|
                    x: (Source, Seq<char>),
                | #[trigger]
                    comes_from(names, x) ==> is_likelier(m, x),
            Err(e) => e == ResolveFault::EmptyArchive(label) && forall|x: (Source, Seq<char>)|
                !#[trigger] comes_from(names, x),
        },
{
    let found = found_among(names, Seq::empty());
    each_is_found_once(names, Seq::empty());
    best_is_no_worse(found, found.len() as int);
    match best_at(found, found.len() as int) {
        Some(at) => {
            let m = found[at];
            assert(comes_from(names, m));
            assert forall|x: (Source, Seq<char>)| #[trigger] comes_from(names, x) implies
                is_likelier(m, x) by {
                found_is_there(names, x);
                let i = choose|i: int| 0 <= i < found.len() && found[i] == x;
                assert(no_worse(found[at], found[i]));
                slashes_are_directories(m.1);
                slashes_are_directories(x.1);
            }
        },
        None => {
            assert forall|x: (Source, Seq<char>)| !#[trigger] comes_from(names, x) by {
                if comes_from(names, x) {
                    found_is_there(names, x);
                }
            }
        },
    }
}

/// With a path, what is read of an archive is the one thing in it of that very name, or else one of
/// that name in another case; where there is none, the first twenty that could be read are shown.
/// What is no archive has no paths.
pub proof fn paths_are_found_by_name(
    label: Seq<char>,
    path: Seq<char>,
    names: Seq<Seq<char>>,
    want: Seq<char>,
)
    ensures
        chosen(label, Some(path), false, None, Some(want)) == Err::<Seq<char>, _>(
            ResolveFault::NotAnArchive(label),
        ),
        chosen(label, Some(path), false, None, None) == Ok::<_, ResolveFault>(path),
        chosen(label, Some(path), true, None, Some(want)) == Err::<Seq<char>, _>(
            ResolveFault::UnreadableArchive(label),
        ),
        match chosen(label, Some(path), true, Some(names), Some(want)) {
            Ok(source) => exists|m: (Source, Seq<char>)| #[trigger]
                comes_from(names, m) && source == "/vsizip/"@ + path + "/"@ + m.1 && lowered(m.1)
                    == lowered(want) && ((exists|x: (Source, Seq<char>)| #[trigger]
                    comes_from(names, x) && x.1 == want) ==> m.1 == want),
            Err(ResolveFault::PathNotFound { path: asked, candidates }) => {
                &&& asked == want
                &&& candidates.len() <= 20
                &&& forall|i: int|
                    0 <= i < candidates.len() ==> exists|m: (Source, Seq<char>)| #[trigger]
                        comes_from(names, m) && m.1 == #[trigger] candidates[i]
                &&& forall|x: (Source, Seq<char>)| #[trigger]
                    comes_from(names, x) ==> lowered(x.1) != lowered(want)
            },
            Err(_) => false,
        },
{
    let found = found_among(names, Seq::empty());
    let all = found_names(found);
    each_is_found_once(names, Seq::empty());
    picked_is_the_wanted_one(all, want);
    match picked(all, want) {
        Some(at) => {
            let m = found[at];
            assert(comes_from(names, m));
            if exists|x: (Source, Seq<char>)| #[trigger] comes_from(names, x) && x.1 == want {
                let x = choose|x: (Source, Seq<char>)| #[trigger]
                    comes_from(names, x) && x.1 == want;
                found_is_there(names, x);
                let i = choose|i: int| 0 <= i < found.len() && found[i] == x;
                assert(all[i] == want);
            }
        },
        None => {
            assert forall|x: (Source, Seq<char>)| #[trigger] comes_from(names, x) implies lowered(
                x.1,
            ) != lowered(want) by {
                found_is_there(names, x);
                let i = choose|i: int| 0 <= i < found.len() && found[i] == x;
                assert(all[i] == x.1);
            }
            let shown = shown_names(found);
            assert forall|i: int| 0 <= i < shown.len() implies exists|m: (Source, Seq<char>)|
                #[trigger] comes_from(names, m) && m.1 == #[trigger] shown[i] by {
                assert(comes_from(names, found[i]));
                assert(shown[i] == found[i].1);
            }
        },
    }
}

} // verus!
