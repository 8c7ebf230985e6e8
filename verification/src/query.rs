//! Asking the database: the SQL that finds out about a source, how a connection is set up, and
//! how rows are handed on.

use vstd::prelude::*;
use vstd::utf8::encode_utf8;

use crate::ast::{
    call2, each_sound, in_quotes, raw, says, select_from, slots_sound, template1, template2, text,
    Relation, RelationModel, Select, Selected, SelectedModel, SelectModel, Sql, SqlExpr,
};
use crate::filters::{is_number, numeral};
use crate::formats::Driver;
use crate::sea::{render, written};
use crate::sql::PlanError;
use crate::text::{
    begins, begins_with, chars_of, contains, decimal, decimal_text, digit, has_text, is_letter,
    is_letter_spec, joined, number, parse_number, part, raised, same, string_of, to_upper, trim,
    trimmed, views,
};
use crate::Fault;

verus! {

/// The source has no geometry column.
#[derive(Debug, Clone, Copy, PartialEq, Eq)]
pub struct NoGeometry;

impl NoGeometry {
    /// What went wrong, in words.
    pub fn message(&self) -> (r: &'static str)
        ensures
            r@ == "source has no geometry column"@,
    {
        "source has no geometry column"
    }
}

/// The names and types of some columns.
pub open spec fn fields(columns: Seq<(String, String)>) -> Seq<(Seq<char>, Seq<char>)> {
    Seq::new(columns.len(), |i: int| (columns[i].0@, columns[i].1@))
}

/// Where the first geometry column stands, `columns.len()` where there is none.
pub open spec fn geometry_at(columns: Seq<(Seq<char>, Seq<char>)>, from: int) -> int
    decreases columns.len() - from,
{
    if from >= columns.len() {
        columns.len() as int
    } else if begins(columns[from].1, "GEOMETRY"@) {
        from
    } else {
        geometry_at(columns, from + 1)
    }
}

/// The name of the first geometry column.
pub open spec fn geometry_column(columns: Seq<(Seq<char>, Seq<char>)>) -> Option<Seq<char>> {
    let at = geometry_at(columns, 0);
    if at < columns.len() {
        Some(columns[at].0)
    } else {
        None
    }
}

/// The name of the first column whose type is a geometry.
pub fn geometry_of(columns: &[(String, String)]) -> (r: Option<&str>)
    ensures
        match r {
            Some(name) => geometry_column(fields(columns@)) == Some(name@),
            None => geometry_column(fields(columns@)) is None,
        },
{
    let ghost all = fields(columns@);
    let mut i: usize = 0;
    while i < columns.len()
        invariant
            i <= columns@.len(),
            all == fields(columns@),
            geometry_at(all, 0) == geometry_at(all, i as int),
        decreases columns@.len() - i,
    {
        assert(all[i as int] == (columns@[i as int].0@, columns@[i as int].1@));
        if begins_with(columns[i].1.as_str(), "GEOMETRY") {
            return Some(columns[i].0.as_str());
        }
        i += 1;
    }
    None
}

/// The table function that reads a source in an encoding.
pub open spec fn reading_source(source: Seq<char>, encoding: Seq<char>) -> RelationModel {
    RelationModel::Function(
        "ST_Read"@,
        seq![
            Sql::Text(source),
            Sql::Template(
                "open_options=list_value($1)"@,
                seq![Sql::Text("ENCODING="@ + encoding)],
            ),
        ],
        "src"@,
    )
}

/// The table function that reads a source in an encoding.
pub fn read_source(source: &str, encoding: &str) -> (r: Relation)
    ensures
        r.model() == reading_source(source@, encoding@),
        r.model().sound(),
{
    let options = template1(
        "open_options=list_value($1)",
        SqlExpr::Text(joined("ENCODING=", encoding)),
    );
    proof {
        reveal_strlit("open_options=list_value($1)");
        reveal_with_fuel(in_quotes, 27);
        assert(slots_sound("open_options=list_value($1)"@, 1));
    }
    let args = vec![SqlExpr::Text(source.to_owned()), options];
    assert(says(args@) =~= seq![Sql::Text(source@), options.model()]);
    assert(Sql::Text(source@).sound());
    Relation::Function("ST_Read".to_owned(), args, "src".to_owned())
}

/// A select of everything that a source holds.
pub open spec fn whole_source(source: Seq<char>, encoding: Seq<char>) -> SelectModel {
    select_from(Sql::Raw("*"@), reading_source(source, encoding), None)
}

/// A select of everything that a source holds.
pub fn read_all(source: &str, encoding: &str) -> (r: Select)
    ensures
        r.model() == whole_source(source@, encoding@),
        r.model().sound(),
{
    Select::from(SqlExpr::Raw("*".to_owned()), read_source(source, encoding))
}

// Finding out about a source.

/// The SQL that asks for the names and types of a source's columns.
pub open spec fn describing(source: Seq<char>, encoding: Seq<char>) -> Seq<char> {
    "SELECT column_name, column_type FROM (DESCRIBE "@ + written(whole_source(source, encoding))
        + ")"@
}

/// The SQL that asks for the names and types of a source's columns.
pub fn describe_sql(source: &str, encoding: &str) -> (r: String)
    ensures
        r@ == describing(source@, encoding@),
{
    let relation = render(&read_all(source, encoding));
    let asked = joined(
        "SELECT column_name, column_type FROM (DESCRIBE ",
        relation.as_str(),
    );
    joined(asked.as_str(), ")")
}

/// The columns among some rows of a description: those with a name and a type.
pub open spec fn columns_of(rows: Seq<(Option<Seq<char>>, Option<Seq<char>>)>) -> Seq<
    (Seq<char>, Seq<char>),
>
    decreases rows.len(),
{
    if rows.len() == 0 {
        Seq::empty()
    } else {
        let before = columns_of(rows.drop_last());
        match rows.last() {
            (Some(name), Some(kind)) => before.push((name, kind)),
            _ => before,
        }
    }
}

/// What may be a text.
pub open spec fn maybe(s: Option<String>) -> Option<Seq<char>> {
    match s {
        Some(s) => Some(s@),
        None => None,
    }
}

/// What the rows of a description are.
pub open spec fn description(rows: Seq<(Option<String>, Option<String>)>) -> Seq<
    (Option<Seq<char>>, Option<Seq<char>>),
> {
    Seq::new(rows.len(), |i: int| (maybe(rows[i].0), maybe(rows[i].1)))
}

/// The columns among the rows of a description: those with a name and a type.
pub fn describe(rows: Vec<(Option<String>, Option<String>)>) -> (r: Vec<(String, String)>)
    ensures
        fields(r@) == columns_of(description(rows@)),
{
    let ghost all = description(rows@);
    let mut columns: Vec<(String, String)> = Vec::new();
    let mut i: usize = 0;
    assert(all.take(0) =~= Seq::empty());
    assert(fields(columns@) =~= columns_of(all.take(0)));
    while i < rows.len()
        invariant
            i <= rows@.len(),
            all == description(rows@),
            fields(columns@) == columns_of(all.take(i as int)),
        decreases rows@.len() - i,
    {
        assert(all.take(i as int + 1).drop_last() =~= all.take(i as int));
        let ghost before = fields(columns@);
        match (&rows[i].0, &rows[i].1) {
            (Some(name), Some(kind)) => {
                columns.push((name.clone(), kind.clone()));
                assert(fields(columns@) =~= before.push((name@, kind@)));
            },
            _ => {},
        }
        i += 1;
    }
    assert(all.take(i as int) =~= all);
    columns
}

/// `name` where it is not empty, else null.
pub open spec fn unless_empty(name: Seq<char>) -> Sql {
    Sql::Call("nullif"@, seq![Sql::Raw(name), Sql::Text(""@)])
}

/// The select of a source's reference system: its authority and code, or else its definition.
pub open spec fn crs_select(source: Seq<char>) -> SelectModel {
    let meta = SelectModel {
        columns: seq![
            SelectedModel {
                expr: Sql::Raw("unnest(layers).geometry_fields[1].crs"@),
                alias: Some("crs"@),
            },
        ],
        from: seq![
            RelationModel::Function("ST_Read_Meta"@, seq![Sql::Text(source)], "meta"@),
        ],
        filter: None,
        limit: None,
    };
    let authority = Sql::Template(
        "$1 || ':' || $2"@,
        seq![unless_empty("crs.auth_name"@), unless_empty("crs.auth_code"@)],
    );
    SelectModel {
        limit: Some(1),
        ..select_from(
            Sql::Coalesce(seq![authority, unless_empty("crs.wkt"@)]),
            RelationModel::Query(Box::new(meta), "meta_crs"@),
            None,
        )
    }
}

fn nullif(name: &str) -> (r: SqlExpr)
    ensures
        r.model() == unless_empty(name@),
        r.model().sound(),
{
    call2("nullif", raw(name), text(""))
}

/// The SQL that asks for a source's reference system.
pub fn source_crs_sql(source: &str) -> (r: String)
    ensures
        r@ == written(crs_select(source@)),
{
    let args = vec![text(source)];
    assert(says(args@) =~= seq![Sql::Text(source@)]);
    assert(Sql::Text(source@).sound());
    let meta = Relation::Function("ST_Read_Meta".to_owned(), args, "meta".to_owned());
    let selected = Selected {
        expr: raw("unnest(layers).geometry_fields[1].crs"),
        alias: Some("crs".to_owned()),
    };
    let inner = Select { columns: vec![selected], from: vec![meta], filter: None, limit: None };
    proof {
        assert(inner.model().columns =~= seq![selected.model()]);
        assert(inner.model().from =~= seq![meta.model()]);
        assert(meta.model().sound());
        assert(inner.model().sound());
        reveal_strlit("$1 || ':' || $2");
        reveal_with_fuel(in_quotes, 16);
        assert(slots_sound("$1 || ':' || $2"@, 2));
    }
    let authority = template2("$1 || ':' || $2", nullif("crs.auth_name"), nullif("crs.auth_code"));
    let choices = vec![authority, nullif("crs.wkt")];
    assert(says(choices@) =~= seq![authority.model(), unless_empty("crs.wkt"@)]);
    assert(each_sound(says(choices@)));
    let either = SqlExpr::Coalesce(choices);
    assert(either.model() == Sql::Coalesce(
        seq![authority.model(), unless_empty("crs.wkt"@)],
    ));
    assert(either.model().sound());
    let from = Relation::Query(Box::new(inner), "meta_crs".to_owned());
    assert(from.model() == RelationModel::Query(Box::new(inner.model()), "meta_crs"@));
    assert(from.model().sound());
    let mut select = Select::from(either, from);
    select.limit = Some(1);
    proof {
        assert(select.model() == crs_select(source@)) by {
            assert(inner.model() == (SelectModel {
                columns: seq![selected.model()],
                from: seq![meta.model()],
                filter: None,
                limit: None,
            }));
        }
    }
    render(&select)
}

/// A dataset inside a request: how the request writes it, and what the database reads for it.
#[derive(Debug, Clone, PartialEq, Eq)]
pub struct Resolved {
    pub raw: String,
    pub source: String,
    pub encoding: String,
}

/// A dataset inside a request, with its columns and its reference system.
#[derive(Debug, Clone, PartialEq, Eq)]
pub struct Described {
    pub raw: String,
    pub source: String,
    pub encoding: String,
    pub columns: Vec<(String, String)>,
    pub crs: Option<String>,
}

/// What is said of a dataset inside a request.
pub struct ResolvedModel {
    pub raw: Seq<char>,
    pub source: Seq<char>,
    pub encoding: Seq<char>,
}

/// What is said of a dataset that has been described.
pub struct DescribedModel {
    pub raw: Seq<char>,
    pub source: Seq<char>,
    pub encoding: Seq<char>,
    pub columns: Seq<(Seq<char>, Seq<char>)>,
    pub crs: Option<Seq<char>>,
}

impl View for Resolved {
    type V = ResolvedModel;

    open spec fn view(&self) -> ResolvedModel {
        ResolvedModel { raw: self.raw@, source: self.source@, encoding: self.encoding@ }
    }
}

impl View for Described {
    type V = DescribedModel;

    open spec fn view(&self) -> DescribedModel {
        DescribedModel {
            raw: self.raw@,
            source: self.source@,
            encoding: self.encoding@,
            columns: fields(self.columns@),
            crs: maybe(self.crs),
        }
    }
}

impl ResolvedModel {
    /// The dataset with its columns and its reference system.
    pub open spec fn described(
        self,
        columns: Seq<(Seq<char>, Seq<char>)>,
        crs: Option<Seq<char>>,
    ) -> DescribedModel {
        DescribedModel {
            raw: self.raw,
            source: self.source,
            encoding: self.encoding,
            columns,
            crs,
        }
    }
}

/// The sources of a request, described one after the other: the one whose rows are asked for, and
/// then the datasets inside the request.
pub struct Sources {
    pub asked: Vec<Resolved>,
    /// The columns of the source whose reference system is read next.
    pub columns: Vec<(String, String)>,
    pub described: Vec<Described>,
}

/// What is known of the sources of a request.
pub struct SourcesModel {
    pub asked: Seq<ResolvedModel>,
    pub columns: Seq<(Seq<char>, Seq<char>)>,
    pub described: Seq<DescribedModel>,
}

impl View for Sources {
    type V = SourcesModel;

    open spec fn view(&self) -> SourcesModel {
        SourcesModel {
            asked: Seq::new(self.asked@.len(), |i: int| self.asked@[i]@),
            columns: fields(self.columns@),
            described: Seq::new(self.described@.len(), |i: int| self.described@[i]@),
        }
    }
}

impl SourcesModel {
    /// None is described yet.
    pub open spec fn none(outer: ResolvedModel, nested: Seq<ResolvedModel>) -> SourcesModel {
        SourcesModel {
            asked: seq![outer] + nested,
            columns: Seq::empty(),
            described: Seq::empty(),
        }
    }

    /// What is described is what was asked for, in that order, and each has a geometry.
    pub open spec fn wf(self) -> bool {
        &&& self.described.len() <= self.asked.len()
        &&& forall|i: int|
            0 <= i < self.described.len() ==> {
                let held = #[trigger] self.described[i];
                &&& held == self.asked[i].described(held.columns, held.crs)
                &&& geometry_column(held.columns) is Some
            }
    }

    /// Every source is described.
    pub open spec fn complete(self) -> bool {
        self.described.len() == self.asked.len()
    }

    /// The source that is described next.
    pub open spec fn current(self) -> ResolvedModel {
        self.asked[self.described.len() as int]
    }

    /// The sources where the current one has some reference system.
    pub open spec fn with_crs(self, crs: Option<Seq<char>>) -> SourcesModel {
        SourcesModel {
            described: self.described.push(self.current().described(self.columns, crs)),
            ..self
        }
    }
}

impl Sources {
    /// None is described yet.
    pub fn new(outer: Resolved, nested: Vec<Resolved>) -> (r: Sources)
        ensures
            r@ == SourcesModel::none(outer@, Seq::new(nested@.len(), |i: int| nested@[i]@)),
            r@.wf(),
    {
        let mut asked = vec![outer];
        let mut nested = nested;
        let ghost inside = nested@;
        asked.append(&mut nested);
        let r = Sources { asked, columns: Vec::new(), described: Vec::new() };
        assert(r@.asked =~= seq![outer@] + Seq::new(inside.len(), |i: int| inside[i]@));
        assert(r@.columns =~= Seq::empty());
        assert(r@.described =~= Seq::empty());
        r
    }

    /// The SQL that asks for the columns of the current source.
    pub fn describe_sql(&self) -> (r: String)
        requires
            !self@.complete(),
            self@.wf(),
        ensures
            r@ == describing(self@.current().source, self@.current().encoding),
    {
        let held = &self.asked[self.described.len()];
        describe_sql(held.source.as_str(), held.encoding.as_str())
    }

    /// The SQL that asks for the reference system of the current source.
    pub fn crs_sql(&self) -> (r: String)
        requires
            !self@.complete(),
            self@.wf(),
        ensures
            r@ == written(crs_select(self@.current().source)),
    {
        source_crs_sql(self.asked[self.described.len()].source.as_str())
    }

    /// Takes the columns of the current source out of the rows of its description, and tells whether
    /// one holds a geometry.
    pub fn describe(&mut self, rows: Vec<(Option<String>, Option<String>)>) -> (r: bool)
        ensures
            final(self)@ == (SourcesModel { columns: columns_of(description(rows@)), ..old(self)@ }),
            r == (geometry_column(final(self)@.columns) is Some),
    {
        let columns = describe(rows);
        let found = geometry_of(columns.as_slice()).is_some();
        self.columns = columns;
        found
    }

    /// Takes the reference system of the current source, and tells whether another source is left.
    pub fn take_crs(&mut self, crs: Option<String>) -> (r: bool)
        requires
            !old(self)@.complete(),
            old(self)@.wf(),
            geometry_column(old(self)@.columns) is Some,
        ensures
            final(self)@ == old(self)@.with_crs(maybe(crs)),
            r == !final(self)@.complete(),
            final(self)@.wf(),
    {
        let ghost before = self@;
        let ghost named = maybe(crs);
        let held = &self.asked[self.described.len()];
        let columns = copied_fields(&self.columns);
        let described = Described {
            raw: held.raw.clone(),
            source: held.source.clone(),
            encoding: held.encoding.clone(),
            columns,
            crs,
        };
        self.described.push(described);
        assert(self@.asked =~= before.asked);
        assert(self@.described =~= before.with_crs(named).described);
        self.described.len() < self.asked.len()
    }
}

fn copied_fields(columns: &Vec<(String, String)>) -> (r: Vec<(String, String)>)
    ensures
        fields(r@) == fields(columns@),
{
    let mut r: Vec<(String, String)> = Vec::new();
    let mut i: usize = 0;
    assert(fields(r@) =~= fields(columns@).take(0));
    while i < columns.len()
        invariant
            i <= columns@.len(),
            fields(r@) == fields(columns@).take(i as int),
        decreases columns@.len() - i,
    {
        let ghost before = fields(r@);
        r.push((columns[i].0.clone(), columns[i].1.clone()));
        assert(fields(r@) =~= before.push(fields(columns@)[i as int]));
        i += 1;
        assert(fields(r@) =~= fields(columns@).take(i as int));
    }
    assert(fields(columns@).take(i as int) =~= fields(columns@));
    r
}

// Settings.

/// How many characters of `s` come before the letters, or percent signs where `percent` says so,
/// that it ends in.
pub open spec fn unit_at(s: Seq<char>, percent: bool, n: int) -> int
    decreases n,
{
    if n > 0 && (is_letter_spec(s[n - 1]) || (percent && s[n - 1] == '%')) {
        unit_at(s, percent, n - 1)
    } else {
        n
    }
}

fn find_unit(s: &[char], percent: bool) -> (r: usize)
    ensures
        r as int == unit_at(s@, percent, s@.len() as int),
        r <= s@.len(),
{
    let mut n: usize = s.len();
    while n > 0 && (is_letter(s[n - 1]) || (percent && s[n - 1] == '%'))
        invariant
            n <= s@.len(),
            unit_at(s@, percent, s@.len() as int) == unit_at(s@, percent, n as int),
        decreases n,
    {
        n -= 1;
    }
    n
}

/// `s` is an unsigned decimal number: at least one digit and at most one dot.
pub open spec fn is_size(s: Seq<char>) -> bool {
    is_number(s) && s[0] != '-'
}

/// A unit of memory, or none.
pub open spec fn is_memory_unit(unit: Seq<char>) -> bool {
    unit == ""@ || unit == "%"@ || unit == "KB"@ || unit == "MB"@ || unit == "GB"@ || unit == "TB"@
        || unit == "KIB"@ || unit == "MIB"@ || unit == "GIB"@ || unit == "TIB"@
}

/// `value` is a number and a unit of memory.
pub open spec fn is_memory_limit(value: Seq<char>) -> bool {
    let at = unit_at(value, true, value.len() as int);
    is_size(value.take(at)) && is_memory_unit(raised(value.skip(at)))
}

/// Whether `value` is a number and a unit of memory.
pub fn valid_memory_limit(value: &str) -> (r: bool)
    ensures
        r == is_memory_limit(value@),
{
    let v = chars_of(value);
    let at = find_unit(v.as_slice(), true);
    let size = string_of(part(v.as_slice(), 0, at));
    assert(size@ =~= value@.take(at as int));
    if !numeral(size.as_str()) || v[0] == '-' {
        return false;
    }
    let unit = to_upper(string_of(part(v.as_slice(), at, v.len())).as_str());
    assert(value@.subrange(at as int, value@.len() as int) =~= value@.skip(at as int));
    let unit = unit.as_str();
    same(unit, "") || same(unit, "%") || same(unit, "KB") || same(unit, "MB") || same(unit, "GB")
        || same(unit, "TB") || same(unit, "KIB") || same(unit, "MIB") || same(unit, "GIB") || same(
        unit,
        "TIB",
    )
}

/// The number that `s` writes, with an optional plus sign before it, if it is at most `max`.
pub open spec fn count_of(s: Seq<char>, max: nat) -> Option<nat> {
    if s.len() > 0 && s[0] == '+' {
        number(s.skip(1), max)
    } else {
        number(s, max)
    }
}

fn parse_count(s: &[char], max: u64) -> (r: Option<u64>)
    ensures
        match r {
            Some(n) => count_of(s@, max as nat) == Some(n as nat),
            None => count_of(s@, max as nat) is None,
        },
{
    if s.len() > 0 && s[0] == '+' {
        let rest = part(s, 1, s.len());
        assert(rest@ =~= s@.skip(1));
        parse_number(rest, max)
    } else {
        parse_number(s, max)
    }
}

/// `value` is a number of threads: more than none, and no more than there can be.
pub open spec fn is_thread_count(value: Seq<char>) -> bool {
    count_of(value, u16::MAX as nat) matches Some(n) && n > 0
}

fn valid_threads(value: &str) -> (r: bool)
    ensures
        r == is_thread_count(value@),
{
    match parse_count(chars_of(value).as_slice(), u16::MAX as u64) {
        Some(n) => n > 0,
        None => false,
    }
}

/// The SQL that limits the memory of a database, where the limit is one.
pub open spec fn memory_setting(memory: Option<Seq<char>>) -> Seq<char> {
    match memory {
        Some(value) if is_memory_limit(trimmed(value)) => "SET memory_limit = '"@ + trimmed(value)
            + "';"@,
        _ => ""@,
    }
}

/// The SQL that limits the threads of a database, where the limit is one.
pub open spec fn threads_setting(threads: Option<Seq<char>>) -> Seq<char> {
    match threads {
        Some(value) if is_thread_count(trimmed(value)) => "SET threads = "@ + trimmed(value) + ";"@,
        _ => ""@,
    }
}

/// The value of a setting, without the white space round it.
pub open spec fn setting(value: Option<&str>) -> Option<Seq<char>> {
    match value {
        Some(value) => Some(value@),
        None => None,
    }
}

/// The SQL that limits what a database takes, for those settings that can be used.
pub fn tuning(memory: Option<&str>, threads: Option<&str>) -> (r: String)
    ensures
        r@ == memory_setting(setting(memory)) + threads_setting(setting(threads)),
{
    let first = match memory {
        Some(value) => {
            let value = trim(value);
            if valid_memory_limit(value.as_str()) {
                joined(joined("SET memory_limit = '", value.as_str()).as_str(), "';")
            } else {
                "".to_owned()
            }
        },
        None => "".to_owned(),
    };
    let second = match threads {
        Some(value) => {
            let value = trim(value);
            if valid_threads(value.as_str()) {
                joined(joined("SET threads = ", value.as_str()).as_str(), ";")
            } else {
                "".to_owned()
            }
        },
        None => "".to_owned(),
    };
    joined(first.as_str(), second.as_str())
}

/// How many bytes a unit stands for.
pub open spec fn scale_of(unit: Seq<char>) -> Option<nat> {
    if unit == ""@ || unit == "B"@ {
        Some(1)
    } else if unit == "KB"@ || unit == "KIB"@ {
        Some(1024)
    } else if unit == "MB"@ || unit == "MIB"@ {
        Some(1024 * 1024)
    } else if unit == "GB"@ || unit == "GIB"@ {
        Some(1024 * 1024 * 1024)
    } else {
        None
    }
}

/// How many bytes `value` stands for: a number above none and a unit, as far as they can be
/// counted.
pub open spec fn bytes_of(value: Seq<char>) -> Option<nat> {
    let at = unit_at(value, false, value.len() as int);
    match (count_of(value.take(at), u64::MAX as nat), scale_of(raised(value.skip(at)))) {
        (Some(n), Some(scale)) if n > 0 && n * scale <= u64::MAX => Some(n * scale),
        _ => None,
    }
}

/// How many bytes `value` stands for.
pub fn parse_bytes(value: &str) -> (r: Option<u64>)
    ensures
        match r {
            Some(n) => bytes_of(value@) == Some(n as nat),
            None => bytes_of(value@) is None,
        },
{
    let v = chars_of(value);
    let at = find_unit(v.as_slice(), false);
    let unit = to_upper(string_of(part(v.as_slice(), at, v.len())).as_str());
    assert(value@.subrange(at as int, value@.len() as int) =~= value@.skip(at as int));
    let unit = unit.as_str();
    let scale: u64 = if same(unit, "") || same(unit, "B") {
        1
    } else if same(unit, "KB") || same(unit, "KIB") {
        1024
    } else if same(unit, "MB") || same(unit, "MIB") {
        1024 * 1024
    } else if same(unit, "GB") || same(unit, "GIB") {
        1024 * 1024 * 1024
    } else {
        return None;
    };
    let digits = part(v.as_slice(), 0, at);
    assert(digits@ =~= value@.take(at as int));
    match parse_count(digits, u64::MAX) {
        Some(n) => {
            if n == 0 {
                None
            } else {
                n.checked_mul(scale)
            }
        },
        None => None,
    }
}

/// The most bytes that a response may be written in where no setting says otherwise.
pub const DEFAULT_EXPORT_LIMIT: u64 = 2 * 1024 * 1024 * 1024;

/// The most bytes that a response may be written in.
pub fn export_limit(value: Option<&str>) -> (r: u64)
    ensures
        r as nat == match value {
            Some(value) => match bytes_of(trimmed(value@)) {
                Some(n) => n,
                None => DEFAULT_EXPORT_LIMIT as nat,
            },
            None => DEFAULT_EXPORT_LIMIT as nat,
        },
{
    match value {
        Some(value) => match parse_bytes(trim(value).as_str()) {
            Some(n) => n,
            None => DEFAULT_EXPORT_LIMIT,
        },
        None => DEFAULT_EXPORT_LIMIT,
    }
}

// Files.

/// `s` with each of its quotes doubled.
pub open spec fn doubled(s: Seq<char>) -> Seq<char>
    decreases s.len(),
{
    if s.len() == 0 {
        s
    } else if s.last() == '\'' {
        doubled(s.drop_last()).push('\'').push('\'')
    } else {
        doubled(s.drop_last()).push(s.last())
    }
}

/// What a text in quotes says, read from behind its first quote on, and what follows it.
pub open spec fn literal(t: Seq<char>) -> Option<(Seq<char>, Seq<char>)>
    decreases t.len(),
{
    if t.len() == 0 {
        None
    } else if t[0] == '\'' && !(t.len() > 1 && t[1] == '\'') {
        Some((Seq::empty(), t.skip(1)))
    } else {
        match literal(
            if t[0] == '\'' {
                t.skip(2)
            } else {
                t.skip(1)
            },
        ) {
            Some((says, rest)) => Some((seq![t[0]] + says, rest)),
            None => None,
        }
    }
}

proof fn doubled_from_the_front(s: Seq<char>)
    requires
        s.len() > 0,
    ensures
        doubled(s) == (if s[0] == '\'' {
            seq!['\'', '\'']
        } else {
            seq![s[0]]
        }) + doubled(s.skip(1)),
    decreases s.len(),
{
    if s.len() == 1 {
        assert(doubled(s.drop_last()) =~= Seq::empty());
        assert(doubled(s.skip(1)) =~= Seq::empty());
    } else {
        doubled_from_the_front(s.drop_last());
        assert(s.drop_last().skip(1) =~= s.skip(1).drop_last());
    }
    assert(doubled(s) =~= (if s[0] == '\'' {
        seq!['\'', '\'']
    } else {
        seq![s[0]]
    }) + doubled(s.skip(1)));
}

/// A text whose quotes are doubled says itself between quotes, and ends at the quote after it,
/// whatever it holds.
pub proof fn doubled_text_is_read_back(s: Seq<char>, rest: Seq<char>)
    requires
        rest.len() > 0 ==> rest[0] != '\'',
    ensures
        literal(doubled(s) + seq!['\''] + rest) == Some((s, rest)),
    decreases s.len(),
{
    let t = doubled(s) + seq!['\''] + rest;
    if s.len() == 0 {
        assert(doubled(s) =~= Seq::empty());
        assert(t.skip(1) =~= rest);
        assert(s =~= Seq::empty());
    } else {
        doubled_from_the_front(s);
        doubled_text_is_read_back(s.skip(1), rest);
        let after = doubled(s.skip(1)) + seq!['\''] + rest;
        if s[0] == '\'' {
            assert(t.skip(2) =~= after);
        } else {
            assert(t.skip(1) =~= after);
        }
        assert(seq![s[0]] + s.skip(1) =~= s);
    }
}

fn double_quotes(s: &str) -> (r: String)
    ensures
        r@ == doubled(s@),
{
    let v = chars_of(s);
    let mut out = String::new();
    let mut i: usize = 0;
    assert(s@.take(0) =~= Seq::<char>::empty());
    assert(out@ =~= doubled(s@.take(0)));
    while i < v.len()
        invariant
            i <= v@.len(),
            v@ == s@,
            out@ == doubled(s@.take(i as int)),
        decreases v@.len() - i,
    {
        assert(s@.take(i as int + 1).drop_last() =~= s@.take(i as int));
        if v[i] == '\'' {
            out.push('\'');
        }
        out.push(v[i]);
        i += 1;
    }
    assert(s@.take(i as int) =~= s@);
    out
}

/// A file to write a response to, by a driver and under the name of a layer.
#[derive(Debug, Clone)]
pub struct Target<'a> {
    pub driver: Driver,
    pub layer: &'a str,
}

/// Options in quotes, with a comma between two.
pub open spec fn option_list(options: Seq<Seq<char>>) -> Seq<char>
    decreases options.len(),
{
    if options.len() == 0 {
        ""@
    } else {
        let last = "'"@ + doubled(options.last()) + "'"@;
        if options.len() == 1 {
            last
        } else {
            option_list(options.drop_last()) + ", "@ + last
        }
    }
}

fn list_options(options: &Vec<&'static str>) -> (r: String)
    ensures
        r@ == option_list(views(options@)),
{
    let ghost all = views(options@);
    let mut out = "".to_owned();
    let mut i: usize = 0;
    assert(all.take(0) =~= Seq::<Seq<char>>::empty());
    while i < options.len()
        invariant
            i <= options@.len(),
            all == views(options@),
            out@ == option_list(all.take(i as int)),
        decreases options@.len() - i,
    {
        assert(all.take(i as int + 1).drop_last() =~= all.take(i as int));
        assert(all[i as int] == options@[i as int]@);
        let last = joined(joined("'", double_quotes(options[i]).as_str()).as_str(), "'");
        if i == 0 {
            out = last;
        } else {
            out = joined(joined(out.as_str(), ", ").as_str(), last.as_str());
        }
        i += 1;
    }
    assert(all.take(i as int) =~= all);
    out
}

/// The SQL that writes the rows of a query to a file.
pub open spec fn copying(
    inner: Seq<char>,
    file: Seq<char>,
    driver: Seq<char>,
    options: Seq<Seq<char>>,
    layer: Seq<char>,
) -> Seq<char> {
    let copy = "COPY ("@ + inner + ") TO '"@ + doubled(file) + "' WITH (FORMAT GDAL, DRIVER '"@
        + driver + "', LAYER_NAME '"@ + doubled(layer) + "'"@;
    if options.len() == 0 {
        copy + ")"@
    } else {
        copy + ", LAYER_CREATION_OPTIONS ("@ + option_list(options) + ")"@ + ")"@
    }
}

/// The SQL that writes the rows of a query to a file.
pub fn copy_statement(inner: &str, file: &str, target: &Target<'_>) -> (r: String)
    ensures
        r@ == copying(
            inner@,
            file@,
            target.driver.name@,
            views(target.driver.options@),
            target.layer@,
        ),
{
    let mut copy = joined("COPY (", inner);
    copy.append(") TO '");
    copy.append(double_quotes(file).as_str());
    copy.append("' WITH (FORMAT GDAL, DRIVER '");
    copy.append(target.driver.name);
    copy.append("', LAYER_NAME '");
    copy.append(double_quotes(target.layer).as_str());
    copy.append("'");
    if target.driver.options.len() > 0 {
        copy.append(", LAYER_CREATION_OPTIONS (");
        copy.append(list_options(&target.driver.options).as_str());
        copy.append(")");
    }
    copy.append(")");
    copy
}

/// A file may not grow past the limit: its writing is stopped.
pub fn past_limit(size: u64, limit: u64) -> (r: bool)
    ensures
        r == (size > limit),
{
    size > limit
}

/// How the writing of a file ended.
#[derive(Debug, Clone, PartialEq, Eq)]
pub enum Written {
    /// The file is there.
    Kept,
    /// The database could not write it.
    Failed,
    /// It is too large, as the message says.
    TooLarge(Fault),
}

/// How the writing of a file ended: where it was not stopped, it failed or the file is kept if it
/// is within the limit; otherwise it is too large.
pub fn export_outcome(stopped: bool, failed: bool, size: u64, limit: u64) -> (r: Written)
    ensures
        r is Kept <==> !stopped && !failed && size <= limit,
        r is Failed <==> !stopped && failed,
        r matches Written::TooLarge(fault) ==> fault.status == 413 && fault.message@
            == "the response passed the "@ + decimal(limit as nat)
            + " byte export limit; narrow it with a filter"@,
{
    if !stopped {
        if failed {
            return Written::Failed;
        }
        if size <= limit {
            return Written::Kept;
        }
    }
    let passed = joined("the response passed the ", decimal_text(limit).as_str());
    Written::TooLarge(
        Fault {
            status: 413,
            message: joined(passed.as_str(), " byte export limit; narrow it with a filter"),
        },
    )
}

/// Why a driver's response cannot be served: it is several files.
pub fn several_files(driver: &str) -> (r: String)
    ensures
        r@ == "the "@ + driver@
            + " driver wrote a dataset of several files, which cannot be served alone"@,
{
    let named = joined("the ", driver);
    joined(
        named.as_str(),
        " driver wrote a dataset of several files, which cannot be served alone",
    )
}

/// The digit that stands for `n` in hexadecimal.
pub open spec fn hex_digit(n: nat) -> char {
    if n < 10 {
        digit(n)
    } else {
        (87 + n) as u8 as char
    }
}

/// `n` in hexadecimal.
pub open spec fn hexadecimal(n: nat) -> Seq<char>
    decreases n,
{
    if n < 16 {
        seq![hex_digit(n)]
    } else {
        hexadecimal(n / 16).push(hex_digit(n % 16))
    }
}

fn hex_chars(n: u64) -> (r: Vec<char>)
    ensures
        r@ == hexadecimal(n as nat),
    decreases n,
{
    let last: u8 = (n % 16) as u8;
    let c = if last < 10 {
        (48 + last) as char
    } else {
        (87 + last) as char
    };
    if n < 16 {
        let mut out: Vec<char> = Vec::new();
        out.push(c);
        assert(out@ =~= hexadecimal(n as nat));
        out
    } else {
        let mut out = hex_chars(n / 16);
        out.push(c);
        out
    }
}

/// The name of a directory for one response of a process.
pub open spec fn response_dir(process: nat, nonce: nat) -> Seq<char> {
    "duckxy-"@ + decimal(process) + "-"@ + hexadecimal(nonce)
}

/// The name of a directory for one response of a process.
pub fn temporary_name(process: u32, nonce: u64) -> (r: String)
    ensures
        r@ == response_dir(process as nat, nonce as nat),
{
    let process = joined("duckxy-", decimal_text(process as u64).as_str());
    let prefix = joined(process.as_str(), "-");
    joined(prefix.as_str(), string_of(hex_chars(nonce).as_slice()).as_str())
}

proof fn hexadecimal_differs(a: nat, b: nat)
    requires
        hexadecimal(a) == hexadecimal(b),
    ensures
        a == b,
    decreases a,
{
    assert(hexadecimal(a).last() == hex_digit(a % 16));
    assert(hexadecimal(b).last() == hex_digit(b % 16));
    if a < 16 && b < 16 {
    } else if a >= 16 && b >= 16 {
        assert(hexadecimal(a).drop_last() =~= hexadecimal(a / 16));
        assert(hexadecimal(b).drop_last() =~= hexadecimal(b / 16));
        hexadecimal_differs(a / 16, b / 16);
    } else if a >= 16 {
        hexadecimal_len(a / 16);
    } else {
        hexadecimal_len(b / 16);
    }
}

proof fn hexadecimal_len(n: nat)
    ensures
        hexadecimal(n).len() > 0,
    decreases n,
{
    if n >= 16 {
        hexadecimal_len(n / 16);
    }
}

/// Two responses of a process with different nonces have different directories.
pub proof fn responses_do_not_share_a_directory(process: nat, a: nat, b: nat)
    requires
        a != b,
    ensures
        response_dir(process, a) != response_dir(process, b),
{
    if response_dir(process, a) == response_dir(process, b) {
        let prefix = "duckxy-"@ + decimal(process) + "-"@;
        let n = prefix.len() as int;
        assert(response_dir(process, a).skip(n) =~= hexadecimal(a));
        assert(response_dir(process, b).skip(n) =~= hexadecimal(b));
        hexadecimal_differs(a, b);
    }
}

// Rows on their way to a client.

/// How many bytes are gathered before they are sent.
pub const CHUNK_BYTES: usize = 64 * 1024;

/// Rows that are gathered, with a separator between two.
pub struct Chunks {
    pub separator: String,
    pub buf: String,
    pub first: bool,
}

/// What is gathered: the text, and whether it is the first.
pub struct ChunksModel {
    pub separator: Seq<char>,
    pub buf: Seq<char>,
    pub first: bool,
}

impl View for Chunks {
    type V = ChunksModel;

    open spec fn view(&self) -> ChunksModel {
        ChunksModel { separator: self.separator@, buf: self.buf@, first: self.first }
    }
}

impl ChunksModel {
    /// Nothing yet.
    pub open spec fn none(separator: Seq<char>) -> ChunksModel {
        ChunksModel { separator, buf: ""@, first: true }
    }

    /// With one more row gathered.
    pub open spec fn gathered(self, row: Seq<char>) -> Seq<char> {
        if self.first {
            self.buf + row
        } else {
            self.buf + self.separator + row
        }
    }

    /// After one more row, and the chunk that is sent, if there is enough for one. A row that is
    /// null is left out.
    pub open spec fn after(self, row: Option<Seq<char>>) -> (ChunksModel, Option<Seq<char>>) {
        match row {
            None => (self, None),
            Some(row) => {
                let text = self.gathered(row);
                if encode_utf8(text).len() >= CHUNK_BYTES {
                    (ChunksModel { buf: ""@, first: false, ..self }, Some(text))
                } else {
                    (ChunksModel { buf: text, first: false, ..self }, None)
                }
            },
        }
    }
}

impl Chunks {
    /// Nothing yet.
    pub fn new(separator: &str) -> (r: Chunks)
        ensures
            r@ == ChunksModel::none(separator@),
    {
        Chunks { separator: separator.to_owned(), buf: "".to_owned(), first: true }
    }

    /// Gathers one more row, and gives the chunk to send if there is enough for one.
    pub fn push(&mut self, row: Option<&str>) -> (r: Option<String>)
        ensures
            (final(self)@, maybe(r)) == old(self)@.after(
                match row {
                    Some(row) => Some(row@),
                    None => None,
                },
            ),
    {
        let row = match row {
            Some(row) => row,
            None => {
                return None;
            },
        };
        if !self.first {
            self.buf.append(self.separator.as_str());
        }
        self.first = false;
        self.buf.append(row);
        if self.buf.as_str().as_bytes().len() >= CHUNK_BYTES {
            let chunk = self.buf.clone();
            self.buf = "".to_owned();
            return Some(chunk);
        }
        None
    }

    /// What is left to send at the end, if anything is.
    pub fn finish(self) -> (r: Option<String>)
        ensures
            maybe(r) == if self@.buf.len() == 0 {
                None
            } else {
                Some(self@.buf)
            },
    {
        if self.buf.as_str().is_empty() {
            None
        } else {
            Some(self.buf)
        }
    }
}

/// The rows that are not null, with a separator between two.
pub open spec fn separated(rows: Seq<Option<Seq<char>>>, separator: Seq<char>) -> Option<Seq<char>>
    decreases rows.len(),
{
    if rows.len() == 0 {
        None
    } else {
        let before = separated(rows.drop_last(), separator);
        match rows.last() {
            None => before,
            Some(row) => match before {
                None => Some(row),
                Some(text) => Some(text + separator + row),
            },
        }
    }
}

/// What has been sent of some rows, one chunk after the other, and what is gathered then.
pub open spec fn chunked(rows: Seq<Option<Seq<char>>>, separator: Seq<char>) -> (
    Seq<char>,
    ChunksModel,
)
    decreases rows.len(),
{
    if rows.len() == 0 {
        (""@, ChunksModel::none(separator))
    } else {
        let (sent, held) = chunked(rows.drop_last(), separator);
        let (next, chunk) = held.after(rows.last());
        match chunk {
            Some(text) => (sent + text, next),
            None => (sent, next),
        }
    }
}

/// The chunks that are sent and what is left at the end are, one after the other, the rows that are
/// not null with a separator between two: nothing is lost, doubled or moved.
pub proof fn chunks_are_the_rows(rows: Seq<Option<Seq<char>>>, separator: Seq<char>)
    ensures
        ({
            let (sent, held) = chunked(rows, separator);
            match separated(rows, separator) {
                Some(text) => sent + held.buf == text && !held.first,
                None => sent + held.buf == ""@ && held.first,
            }
        }),
        chunked(rows, separator).1.separator == separator,
    decreases rows.len(),
{
    reveal_strlit("");
    let (sent, held) = chunked(rows, separator);
    if rows.len() == 0 {
        assert(sent + held.buf =~= ""@);
    } else {
        chunks_are_the_rows(rows.drop_last(), separator);
        let (sent0, held0) = chunked(rows.drop_last(), separator);
        match rows.last() {
            None => {},
            Some(row) => {
                let text = held0.gathered(row);
                if held0.first {
                    assert(sent0 + held0.buf =~= Seq::<char>::empty());
                    assert(sent0 =~= Seq::<char>::empty());
                    assert(held0.buf =~= Seq::<char>::empty());
                    assert(sent0 + text =~= row);
                } else {
                    assert(sent0 + text =~= (sent0 + held0.buf) + separator + row);
                }
                assert(sent + held.buf =~= sent0 + text);
            },
        }
    }
}

// A query from its source to its rows.

/// Where a query stands.
#[derive(Debug, Clone, Copy, PartialEq, Eq, Structural)]
pub enum Stage {
    Starting,
    Describing,
    ReadingCrs,
    Planning,
    Preparing,
    Reading,
    Sending,
    Closing,
    Done,
}

/// A query on its way.
pub struct Run {
    pub stage: Stage,
    pub sources: Sources,
    pub chunks: Chunks,
}

/// What came of the last thing that was done.
pub enum RunEvent {
    /// Nothing was done yet.
    Started,
    /// The rows of the current source's description.
    Described(Vec<(Option<String>, Option<String>)>),
    /// The current source's reference system, if it could be read.
    CrsRead(Option<String>),
    /// The SQL of the query, or why there is none.
    Planned(Result<String, PlanError>),
    /// The query is prepared.
    Prepared,
    /// A row.
    Row(Option<String>),
    /// There are no more rows.
    NoMoreRows,
    /// A chunk was sent, and the client wants more or not.
    Sent(bool),
}

/// What is to be done next.
pub enum RunAction {
    /// Ask for the columns of the current source.
    Describe(String),
    /// Ask for the reference system of the current source.
    ReadCrs(String),
    /// Make the SQL of the query from what is known of its sources.
    Plan,
    /// Prepare the query.
    Prepare(String),
    /// Say that the query is ready, and read a row.
    BeReady,
    /// Read a row.
    Fetch,
    /// Send a chunk.
    Send(String),
    /// Nothing: all is sent, or the client wants no more.
    Stop,
    /// Report what is wrong.
    Fail(PlanError),
}

/// What is known of a query on its way.
pub struct RunModel {
    pub stage: Stage,
    pub sources: SourcesModel,
    pub chunks: ChunksModel,
}

/// What came of the last thing that was done.
pub enum EventModel {
    Started,
    Described(Seq<(Option<Seq<char>>, Option<Seq<char>>)>),
    CrsRead(Option<Seq<char>>),
    Planned(Result<Seq<char>, PlanError<Seq<char>>>),
    Prepared,
    Row(Option<Seq<char>>),
    NoMoreRows,
    Sent(bool),
}

/// What is to be done next.
pub enum ActionModel {
    Describe(Seq<char>),
    ReadCrs(Seq<char>),
    Plan,
    Prepare(Seq<char>),
    BeReady,
    Fetch,
    Send(Seq<char>),
    Stop,
    Fail(PlanError<Seq<char>>),
}

impl View for Run {
    type V = RunModel;

    open spec fn view(&self) -> RunModel {
        RunModel {
            stage: self.stage,
            sources: self.sources@,
            chunks: self.chunks@,
        }
    }
}

impl View for RunEvent {
    type V = EventModel;

    open spec fn view(&self) -> EventModel {
        match self {
            RunEvent::Started => EventModel::Started,
            RunEvent::Described(rows) => EventModel::Described(description(rows@)),
            RunEvent::CrsRead(crs) => EventModel::CrsRead(maybe(*crs)),
            RunEvent::Planned(Ok(sql)) => EventModel::Planned(Ok(sql@)),
            RunEvent::Planned(Err(e)) => EventModel::Planned(Err(e.model())),
            RunEvent::Prepared => EventModel::Prepared,
            RunEvent::Row(row) => EventModel::Row(maybe(*row)),
            RunEvent::NoMoreRows => EventModel::NoMoreRows,
            RunEvent::Sent(more) => EventModel::Sent(*more),
        }
    }
}

impl View for RunAction {
    type V = ActionModel;

    open spec fn view(&self) -> ActionModel {
        match self {
            RunAction::Describe(sql) => ActionModel::Describe(sql@),
            RunAction::ReadCrs(sql) => ActionModel::ReadCrs(sql@),
            RunAction::Plan => ActionModel::Plan,
            RunAction::Prepare(sql) => ActionModel::Prepare(sql@),
            RunAction::BeReady => ActionModel::BeReady,
            RunAction::Fetch => ActionModel::Fetch,
            RunAction::Send(chunk) => ActionModel::Send(chunk@),
            RunAction::Stop => ActionModel::Stop,
            RunAction::Fail(e) => ActionModel::Fail(e.model()),
        }
    }
}

impl RunModel {
    /// What holds of a query on its way: it is planned only when every source is described.
    pub open spec fn wf(self) -> bool {
        &&& self.sources.wf()
        &&& match self.stage {
            Stage::Starting | Stage::Describing => !self.sources.complete(),
            Stage::ReadingCrs => !self.sources.complete() && geometry_column(
                self.sources.columns,
            ) is Some,
            Stage::Done => true,
            _ => self.sources.complete(),
        }
    }

    /// The event can come where the query stands.
    pub open spec fn expects(self, event: EventModel) -> bool {
        match event {
            EventModel::Started => self.stage == Stage::Starting,
            EventModel::Described(_) => self.stage == Stage::Describing,
            EventModel::CrsRead(_) => self.stage == Stage::ReadingCrs,
            EventModel::Planned(_) => self.stage == Stage::Planning,
            EventModel::Prepared => self.stage == Stage::Preparing,
            EventModel::Row(_) | EventModel::NoMoreRows => self.stage == Stage::Reading,
            EventModel::Sent(_) => self.stage == Stage::Sending || self.stage == Stage::Closing,
        }
    }

    /// Where the query stands after an event, and what is to be done next. A source without a
    /// geometry is reported before anything is planned, and what the client has not asked for is
    /// not read.
    pub open spec fn next(self, event: EventModel) -> (RunModel, ActionModel) {
        let done = RunModel { stage: Stage::Done, ..self };
        match event {
            EventModel::Started => (
                RunModel { stage: Stage::Describing, ..self },
                ActionModel::Describe(
                    describing(self.sources.current().source, self.sources.current().encoding),
                ),
            ),
            EventModel::Described(rows) => {
                let sources = SourcesModel { columns: columns_of(rows), ..self.sources };
                if geometry_column(sources.columns) is None {
                    (RunModel { sources, ..done }, ActionModel::Fail(PlanError::NoGeometry))
                } else {
                    (
                        RunModel { sources, stage: Stage::ReadingCrs, ..self },
                        ActionModel::ReadCrs(written(crs_select(sources.current().source))),
                    )
                }
            },
            EventModel::CrsRead(crs) => {
                let sources = self.sources.with_crs(crs);
                if sources.complete() {
                    (RunModel { sources, stage: Stage::Planning, ..self }, ActionModel::Plan)
                } else {
                    (
                        RunModel { sources, stage: Stage::Describing, ..self },
                        ActionModel::Describe(
                            describing(sources.current().source, sources.current().encoding),
                        ),
                    )
                }
            },
            EventModel::Planned(Ok(sql)) => (
                RunModel { stage: Stage::Preparing, ..self },
                ActionModel::Prepare(sql),
            ),
            EventModel::Planned(Err(e)) => (done, ActionModel::Fail(e)),
            EventModel::Prepared => (
                RunModel { stage: Stage::Reading, ..self },
                ActionModel::BeReady,
            ),
            EventModel::Row(row) => {
                let (chunks, chunk) = self.chunks.after(row);
                match chunk {
                    Some(text) => (
                        RunModel { chunks, stage: Stage::Sending, ..self },
                        ActionModel::Send(text),
                    ),
                    None => (RunModel { chunks, ..self }, ActionModel::Fetch),
                }
            },
            EventModel::NoMoreRows => if self.chunks.buf.len() == 0 {
                (done, ActionModel::Stop)
            } else {
                (
                    RunModel {
                        chunks: ChunksModel { buf: ""@, ..self.chunks },
                        stage: Stage::Closing,
                        ..self
                    },
                    ActionModel::Send(self.chunks.buf),
                )
            },
            EventModel::Sent(more) => if self.stage == Stage::Sending && more {
                (RunModel { stage: Stage::Reading, ..self }, ActionModel::Fetch)
            } else {
                (done, ActionModel::Stop)
            },
        }
    }
}

impl Run {
    /// A query of which nothing is done yet.
    pub fn new(outer: Resolved, nested: Vec<Resolved>, separator: &str) -> (r: Run)
        ensures
            r@ == (RunModel {
                stage: Stage::Starting,
                sources: SourcesModel::none(
                    outer@,
                    Seq::new(nested@.len(), |i: int| nested@[i]@),
                ),
                chunks: ChunksModel::none(separator@),
            }),
            r@.wf(),
    {
        Run {
            stage: Stage::Starting,
            sources: Sources::new(outer, nested),
            chunks: Chunks::new(separator),
        }
    }
}

/// Takes a query one event further, and tells what is to be done next.
pub fn run(held: &mut Run, event: RunEvent) -> (r: RunAction)
    requires
        old(held)@.wf(),
        old(held)@.expects(event@),
    ensures
        (final(held)@, r@) == old(held)@.next(event@),
        final(held)@.wf(),
{
    match event {
        RunEvent::Started => {
            held.stage = Stage::Describing;
            RunAction::Describe(held.sources.describe_sql())
        },
        RunEvent::Described(rows) => {
            if held.sources.describe(rows) {
                held.stage = Stage::ReadingCrs;
                RunAction::ReadCrs(held.sources.crs_sql())
            } else {
                held.stage = Stage::Done;
                RunAction::Fail(PlanError::NoGeometry)
            }
        },
        RunEvent::CrsRead(crs) => {
            if held.sources.take_crs(crs) {
                held.stage = Stage::Describing;
                RunAction::Describe(held.sources.describe_sql())
            } else {
                held.stage = Stage::Planning;
                RunAction::Plan
            }
        },
        RunEvent::Planned(planned) => match planned {
            Ok(sql) => {
                held.stage = Stage::Preparing;
                RunAction::Prepare(sql)
            },
            Err(e) => {
                held.stage = Stage::Done;
                RunAction::Fail(e)
            },
        },
        RunEvent::Prepared => {
            held.stage = Stage::Reading;
            RunAction::BeReady
        },
        RunEvent::Row(row) => {
            let chunk = match &row {
                Some(text) => held.chunks.push(Some(text.as_str())),
                None => held.chunks.push(None),
            };
            match chunk {
                Some(text) => {
                    held.stage = Stage::Sending;
                    RunAction::Send(text)
                },
                None => RunAction::Fetch,
            }
        },
        RunEvent::NoMoreRows => {
            if held.chunks.buf.as_str().is_empty() {
                held.stage = Stage::Done;
                RunAction::Stop
            } else {
                let rest = held.chunks.buf.clone();
                held.chunks.buf = "".to_owned();
                held.stage = Stage::Closing;
                RunAction::Send(rest)
            }
        },
        RunEvent::Sent(more) => {
            let on = match held.stage {
                Stage::Sending => more,
                _ => false,
            };
            if on {
                held.stage = Stage::Reading;
                RunAction::Fetch
            } else {
                held.stage = Stage::Done;
                RunAction::Stop
            }
        },
    }
}

/// Where a query stands after some events, and what was to be done after each of them.
pub open spec fn ran(start: RunModel, events: Seq<EventModel>) -> (RunModel, Seq<ActionModel>)
    decreases events.len(),
{
    if events.len() == 0 {
        (start, Seq::empty())
    } else {
        let (held, done) = ran(start, events.drop_last());
        let (next, action) = held.next(events.last());
        (next, done.push(action))
    }
}

/// Each event comes where the query stands then.
pub open spec fn in_turn(start: RunModel, events: Seq<EventModel>) -> bool
    decreases events.len(),
{
    events.len() == 0 || (in_turn(start, events.drop_last()) && ran(
        start,
        events.drop_last(),
    ).0.expects(events.last()))
}

/// The rows that were read.
pub open spec fn rows_of(events: Seq<EventModel>) -> Seq<Option<Seq<char>>>
    decreases events.len(),
{
    if events.len() == 0 {
        Seq::empty()
    } else {
        match events.last() {
            EventModel::Row(row) => rows_of(events.drop_last()).push(row),
            _ => rows_of(events.drop_last()),
        }
    }
}

/// What was sent, one chunk after the other.
pub open spec fn sent_of(actions: Seq<ActionModel>) -> Seq<char>
    decreases actions.len(),
{
    if actions.len() == 0 {
        ""@
    } else {
        match actions.last() {
            ActionModel::Send(chunk) => sent_of(actions.drop_last()) + chunk,
            _ => sent_of(actions.drop_last()),
        }
    }
}

/// The query has been said to be ready.
pub open spec fn is_ready(actions: Seq<ActionModel>) -> bool {
    exists|i: int| 0 <= i < actions.len() && #[trigger] actions[i] == ActionModel::BeReady
}

/// Where a query stands is told by what was read and sent of it.
spec fn told(held: RunModel, actions: Seq<ActionModel>, rows: Seq<Option<Seq<char>>>, separator:
    Seq<char>) -> bool {
    let (sent, chunks) = chunked(rows, separator);
    match held.stage {
        Stage::Reading | Stage::Sending => is_ready(actions) && sent_of(actions) == sent
            && held.chunks == chunks,
        Stage::Closing => is_ready(actions) && sent_of(actions) == sent + chunks.buf
            && held.chunks.buf == ""@,
        Stage::Done => sent_of(actions) + held.chunks.buf == sent + chunks.buf,
        _ => !is_ready(actions) && sent_of(actions) == ""@ && rows.len() == 0 && held.chunks
            == ChunksModel::none(separator),
    }
}

proof fn one_more_action(before: Seq<ActionModel>, action: ActionModel)
    ensures
        is_ready(before.push(action)) == (is_ready(before) || action == ActionModel::BeReady),
        sent_of(before.push(action)) == (match action {
            ActionModel::Send(chunk) => sent_of(before) + chunk,
            _ => sent_of(before),
        }),
{
    let after = before.push(action);
    assert(after.drop_last() =~= before);
    assert(after[before.len() as int] == action);
    if is_ready(before) {
        let i = choose|i: int| 0 <= i < before.len() && #[trigger] before[i]
            == ActionModel::BeReady;
        assert(after[i] == ActionModel::BeReady);
    }
    if is_ready(after) && action != ActionModel::BeReady {
        let i = choose|i: int| 0 <= i < after.len() && #[trigger] after[i]
            == ActionModel::BeReady;
        assert(before[i] == ActionModel::BeReady);
    }
}

proof fn run_is_told(start: RunModel, events: Seq<EventModel>)
    requires
        start.stage == Stage::Starting,
        start.chunks == ChunksModel::none(start.chunks.separator),
        in_turn(start, events),
    ensures
        ({
            let (held, actions) = ran(start, events);
            told(held, actions, rows_of(events), start.chunks.separator)
        }),
    decreases events.len(),
{
    let separator = start.chunks.separator;
    reveal_strlit("");
    if events.len() > 0 {
        let before = events.drop_last();
        run_is_told(start, before);
        let (held, done) = ran(start, before);
        let event = events.last();
        let (next, action) = held.next(event);
        one_more_action(done, action);
        let rows = rows_of(before);
        match event {
            EventModel::Row(row) => {
                assert(rows.push(row).drop_last() =~= rows);
                assert(sent_of(done.push(action)) =~= chunked(rows.push(row), separator).0);
            },
            EventModel::NoMoreRows => {
                let (sent, chunks) = chunked(rows, separator);
                assert(sent + chunks.buf =~= sent_of(done.push(action)) + next.chunks.buf);
                if chunks.buf.len() == 0 {
                    assert(chunks.buf =~= ""@);
                }
            },
            EventModel::Sent(_) => {
                assert(sent_of(done) + ""@ =~= sent_of(done));
            },
            _ => {
                assert(chunked(rows, separator) == (""@, ChunksModel::none(separator)));
                assert(""@ + ""@ =~= ""@);
            },
        }
    }
}

proof fn ready_comes_first(start: RunModel, events: Seq<EventModel>)
    requires
        start.stage == Stage::Starting,
        start.chunks == ChunksModel::none(start.chunks.separator),
        in_turn(start, events),
    ensures
        ({
            let actions = ran(start, events).1;
            &&& forall|i: int, j: int|
                0 <= i < j < actions.len() && #[trigger] actions[i] == ActionModel::BeReady
                    ==> #[trigger] actions[j] != ActionModel::BeReady
            &&& forall|j: int|
                0 <= j < actions.len() && (#[trigger] actions[j]) is Send ==> is_ready(
                    actions.take(j),
                )
        }),
    decreases events.len(),
{
    if events.len() > 0 {
        let before = events.drop_last();
        ready_comes_first(start, before);
        run_is_told(start, before);
        let (held, done) = ran(start, before);
        let action = held.next(events.last()).1;
        let actions = done.push(action);
        assert forall|i: int, j: int|
            0 <= i < j < actions.len() && #[trigger] actions[i] == ActionModel::BeReady implies
            #[trigger] actions[j] != ActionModel::BeReady by {
            assert(actions[i] == done[i]);
            if j < done.len() {
                assert(actions[j] == done[j]);
            } else {
                assert(is_ready(done));
            }
        }
        assert forall|j: int|
            0 <= j < actions.len() && (#[trigger] actions[j]) is Send implies is_ready(
            actions.take(j),
        ) by {
            if j < done.len() {
                assert(actions[j] == done[j]);
                assert(actions.take(j) =~= done.take(j));
            } else {
                assert(actions.take(j) =~= done);
            }
        }
    }
}

/// All rows were read.
pub open spec fn is_read_out(events: Seq<EventModel>) -> bool {
    exists|i: int| 0 <= i < events.len() && (#[trigger] events[i]) is NoMoreRows
}

proof fn nothing_is_left(start: RunModel, events: Seq<EventModel>)
    requires
        in_turn(start, events),
    ensures
        is_read_out(events) ==> {
            let held = ran(start, events).0;
            &&& held.stage == Stage::Closing || held.stage == Stage::Done
            &&& held.chunks.buf.len() == 0
        },
    decreases events.len(),
{
    reveal_strlit("");
    if is_read_out(events) {
        let before = events.drop_last();
        nothing_is_left(start, before);
        let i = choose|i: int| 0 <= i < events.len() && (#[trigger] events[i]) is NoMoreRows;
        if i < before.len() {
            assert(before[i] == events[i]);
            assert(is_read_out(before));
        }
    }
}

/// Over a whole run, the query is said to be ready at most once, and before any chunk is sent; what
/// was sent, and what is gathered still, is the rows that were read, those that are not null, with a
/// separator between two; and once there are no more rows, all of it was sent.
pub proof fn a_run_sends_its_rows(start: RunModel, events: Seq<EventModel>)
    requires
        start.stage == Stage::Starting,
        start.chunks == ChunksModel::none(start.chunks.separator),
        in_turn(start, events),
    ensures
        ({
            let (held, actions) = ran(start, events);
            let text = match separated(rows_of(events), start.chunks.separator) {
                Some(text) => text,
                None => ""@,
            };
            &&& forall|i: int, j: int|
                0 <= i < j < actions.len() && #[trigger] actions[i] == ActionModel::BeReady
                    ==> #[trigger] actions[j] != ActionModel::BeReady
            &&& forall|j: int|
                0 <= j < actions.len() && (#[trigger] actions[j]) is Send ==> is_ready(
                    actions.take(j),
                )
            &&& sent_of(actions) + held.chunks.buf == text
            &&& held.chunks.buf.len() == 0 ==> sent_of(actions) == text
        }),
        is_read_out(events) ==> ran(start, events).0.chunks.buf.len() == 0,
{
    reveal_strlit("");
    run_is_told(start, events);
    nothing_is_left(start, events);
    ready_comes_first(start, events);
    let separator = start.chunks.separator;
    chunks_are_the_rows(rows_of(events), separator);
    let (held, actions) = ran(start, events);
    let (sent, chunks) = chunked(rows_of(events), separator);
    match held.stage {
        Stage::Closing => {
            assert(sent_of(actions) + held.chunks.buf =~= sent_of(actions));
        },
        Stage::Reading | Stage::Sending | Stage::Done => {},
        _ => {
            assert(chunked(rows_of(events), separator) == (""@, ChunksModel::none(separator)));
        },
    }
    if held.chunks.buf.len() == 0 {
        assert(sent_of(actions) + held.chunks.buf =~= sent_of(actions));
    }
}

/// A query is planned only once each of its sources is described, in the order in which they were
/// asked for, and each has a geometry.
pub proof fn planned_with_every_source(held: RunModel, event: EventModel)
    requires
        held.wf(),
        held.expects(event),
        held.next(event).1 == ActionModel::Plan,
    ensures
        ({
            let sources = held.next(event).0.sources;
            &&& sources.asked == held.sources.asked
            &&& sources.described.len() == sources.asked.len()
            &&& forall|i: int|
                0 <= i < sources.described.len() ==> {
                    let known = #[trigger] sources.described[i];
                    &&& known.source == sources.asked[i].source
                    &&& known.encoding == sources.asked[i].encoding
                    &&& geometry_column(known.columns) is Some
                }
        }),
{
}

// A response that a driver writes to a file first.

/// Where such a response stands.
#[derive(Debug, Clone, Copy, PartialEq, Eq, Structural)]
pub enum ExportStage {
    Starting,
    Describing,
    ReadingCrs,
    Planning,
    Copying,
    Looking,
    Reading,
    Sending,
    Done,
}

/// A response that a driver writes, on its way.
pub struct Export<'a> {
    pub stage: ExportStage,
    pub target: Target<'a>,
    pub file: String,
    pub limit: u64,
    pub sources: Sources,
}

/// What is known of such a response.
pub struct ExportModel {
    pub stage: ExportStage,
    pub driver: Seq<char>,
    pub options: Seq<Seq<char>>,
    pub layer: Seq<char>,
    pub file: Seq<char>,
    pub limit: nat,
    pub sources: SourcesModel,
}

impl<'a> View for Export<'a> {
    type V = ExportModel;

    open spec fn view(&self) -> ExportModel {
        ExportModel {
            stage: self.stage,
            driver: self.target.driver.name@,
            options: views(self.target.driver.options@),
            layer: self.target.layer@,
            file: self.file@,
            limit: self.limit as nat,
            sources: self.sources@,
        }
    }
}

/// What came of the last thing that was done.
pub enum ExportEvent {
    /// Nothing was done yet.
    Started,
    /// The rows of the current source's description.
    Described(Vec<(Option<String>, Option<String>)>),
    /// The current source's reference system, if it could be read.
    CrsRead(Option<String>),
    /// The SQL of the query, or why there is none.
    Planned(Result<String, PlanError>),
    /// The file was written: whether it was stopped, whether it failed, and how large it is.
    Copied { stopped: bool, failed: bool, size: u64 },
    /// Whether what was written is a directory.
    Looked(bool),
    /// Bytes of the file, none at its end.
    Read(Vec<u8>),
    /// Bytes were sent, and the client wants more or not.
    Sent(bool),
}

/// What came of the last thing that was done.
pub enum ExportEventModel {
    Started,
    Described(Seq<(Option<Seq<char>>, Option<Seq<char>>)>),
    CrsRead(Option<Seq<char>>),
    Planned(Result<Seq<char>, PlanError<Seq<char>>>),
    Copied { stopped: bool, failed: bool, size: nat },
    Looked(bool),
    Read(Seq<u8>),
    Sent(bool),
}

impl View for ExportEvent {
    type V = ExportEventModel;

    open spec fn view(&self) -> ExportEventModel {
        match self {
            ExportEvent::Started => ExportEventModel::Started,
            ExportEvent::Described(rows) => ExportEventModel::Described(description(rows@)),
            ExportEvent::CrsRead(crs) => ExportEventModel::CrsRead(maybe(*crs)),
            ExportEvent::Planned(Ok(sql)) => ExportEventModel::Planned(Ok(sql@)),
            ExportEvent::Planned(Err(e)) => ExportEventModel::Planned(Err(e.model())),
            ExportEvent::Copied { stopped, failed, size } => ExportEventModel::Copied {
                stopped: *stopped,
                failed: *failed,
                size: *size as nat,
            },
            ExportEvent::Looked(is_dir) => ExportEventModel::Looked(*is_dir),
            ExportEvent::Read(bytes) => ExportEventModel::Read(bytes@),
            ExportEvent::Sent(more) => ExportEventModel::Sent(*more),
        }
    }
}

/// What is to be done next.
pub enum ExportAction {
    /// Ask for the columns of the current source.
    Describe(String),
    /// Ask for the reference system of the current source.
    ReadCrs(String),
    /// Make the SQL of the query from what is known of its sources.
    Plan,
    /// Write the file.
    Copy(String),
    /// See whether what was written is a directory.
    Look,
    /// Say that the response is ready, and read bytes of the file.
    BeReady,
    /// Read bytes of the file.
    Read,
    /// Send bytes.
    Send(Vec<u8>),
    /// Nothing: all is sent, or the client wants no more.
    Stop,
    /// Report why there is no SQL.
    Fail(PlanError),
    /// Report what the database said.
    FailDatabase,
    /// Report that the file is too large.
    FailLarge(Fault),
    /// Report that there are several files.
    FailSeveral(String),
}

/// What is to be done next.
pub enum ExportActionModel {
    Describe(Seq<char>),
    ReadCrs(Seq<char>),
    Plan,
    Copy(Seq<char>),
    Look,
    BeReady,
    Read,
    Send(Seq<u8>),
    Stop,
    Fail(PlanError<Seq<char>>),
    FailDatabase,
    FailLarge(nat, Seq<char>),
    FailSeveral(Seq<char>),
}

impl View for ExportAction {
    type V = ExportActionModel;

    open spec fn view(&self) -> ExportActionModel {
        match self {
            ExportAction::Describe(sql) => ExportActionModel::Describe(sql@),
            ExportAction::ReadCrs(sql) => ExportActionModel::ReadCrs(sql@),
            ExportAction::Plan => ExportActionModel::Plan,
            ExportAction::Copy(sql) => ExportActionModel::Copy(sql@),
            ExportAction::Look => ExportActionModel::Look,
            ExportAction::BeReady => ExportActionModel::BeReady,
            ExportAction::Read => ExportActionModel::Read,
            ExportAction::Send(bytes) => ExportActionModel::Send(bytes@),
            ExportAction::Stop => ExportActionModel::Stop,
            ExportAction::Fail(e) => ExportActionModel::Fail(e.model()),
            ExportAction::FailDatabase => ExportActionModel::FailDatabase,
            ExportAction::FailLarge(fault) => ExportActionModel::FailLarge(
                fault.status as nat,
                fault.message@,
            ),
            ExportAction::FailSeveral(message) => ExportActionModel::FailSeveral(message@),
        }
    }
}

impl ExportModel {
    /// What holds of a response on its way: it is planned only when every source is described.
    pub open spec fn wf(self) -> bool {
        &&& self.sources.wf()
        &&& match self.stage {
            ExportStage::Starting | ExportStage::Describing => !self.sources.complete(),
            ExportStage::ReadingCrs => !self.sources.complete() && geometry_column(
                self.sources.columns,
            ) is Some,
            ExportStage::Done => true,
            _ => self.sources.complete(),
        }
    }

    /// The event can come where the response stands.
    pub open spec fn expects(self, event: ExportEventModel) -> bool {
        match event {
            ExportEventModel::Started => self.stage == ExportStage::Starting,
            ExportEventModel::Described(_) => self.stage == ExportStage::Describing,
            ExportEventModel::CrsRead(_) => self.stage == ExportStage::ReadingCrs,
            ExportEventModel::Planned(_) => self.stage == ExportStage::Planning,
            ExportEventModel::Copied { .. } => self.stage == ExportStage::Copying,
            ExportEventModel::Looked(_) => self.stage == ExportStage::Looking,
            ExportEventModel::Read(_) => self.stage == ExportStage::Reading,
            ExportEventModel::Sent(_) => self.stage == ExportStage::Sending,
        }
    }

    /// Where the response stands after an event, and what is to be done next. Nothing is said to be
    /// ready before the whole file is there, is one file and is within the limit.
    pub open spec fn next(self, event: ExportEventModel) -> (ExportModel, ExportActionModel) {
        let done = ExportModel { stage: ExportStage::Done, ..self };
        match event {
            ExportEventModel::Started => (
                ExportModel { stage: ExportStage::Describing, ..self },
                ExportActionModel::Describe(
                    describing(self.sources.current().source, self.sources.current().encoding),
                ),
            ),
            ExportEventModel::Described(rows) => {
                let sources = SourcesModel { columns: columns_of(rows), ..self.sources };
                if geometry_column(sources.columns) is None {
                    (ExportModel { sources, ..done }, ExportActionModel::Fail(PlanError::NoGeometry))
                } else {
                    (
                        ExportModel { sources, stage: ExportStage::ReadingCrs, ..self },
                        ExportActionModel::ReadCrs(written(crs_select(sources.current().source))),
                    )
                }
            },
            ExportEventModel::CrsRead(crs) => {
                let sources = self.sources.with_crs(crs);
                if sources.complete() {
                    (ExportModel { sources, stage: ExportStage::Planning, ..self }, ExportActionModel::Plan)
                } else {
                    (
                        ExportModel { sources, stage: ExportStage::Describing, ..self },
                        ExportActionModel::Describe(
                            describing(sources.current().source, sources.current().encoding),
                        ),
                    )
                }
            },
            ExportEventModel::Planned(Ok(sql)) => (
                ExportModel { stage: ExportStage::Copying, ..self },
                ExportActionModel::Copy(
                    copying(sql, self.file, self.driver, self.options, self.layer),
                ),
            ),
            ExportEventModel::Planned(Err(e)) => (done, ExportActionModel::Fail(e)),
            ExportEventModel::Copied { stopped, failed, size } => if !stopped && failed {
                (done, ExportActionModel::FailDatabase)
            } else if stopped || size > self.limit {
                (
                    done,
                    ExportActionModel::FailLarge(
                        413,
                        "the response passed the "@ + decimal(self.limit)
                            + " byte export limit; narrow it with a filter"@,
                    ),
                )
            } else {
                (
                    ExportModel { stage: ExportStage::Looking, ..self },
                    ExportActionModel::Look,
                )
            },
            ExportEventModel::Looked(true) => (
                done,
                ExportActionModel::FailSeveral(
                    "the "@ + self.driver
                        + " driver wrote a dataset of several files, which cannot be served alone"@,
                ),
            ),
            ExportEventModel::Looked(false) => (
                ExportModel { stage: ExportStage::Reading, ..self },
                ExportActionModel::BeReady,
            ),
            ExportEventModel::Read(bytes) => if bytes.len() == 0 {
                (done, ExportActionModel::Stop)
            } else {
                (
                    ExportModel { stage: ExportStage::Sending, ..self },
                    ExportActionModel::Send(bytes),
                )
            },
            ExportEventModel::Sent(more) => if more {
                (
                    ExportModel { stage: ExportStage::Reading, ..self },
                    ExportActionModel::Read,
                )
            } else {
                (done, ExportActionModel::Stop)
            },
        }
    }
}

impl<'a> Export<'a> {
    /// A response of which nothing is done yet.
    pub fn new(
        outer: Resolved,
        nested: Vec<Resolved>,
        target: Target<'a>,
        file: &str,
        limit: u64,
    ) -> (r: Export<'a>)
        ensures
            r.stage == ExportStage::Starting,
            r.target == target,
            r.file@ == file@,
            r.limit == limit,
            r.sources@ == SourcesModel::none(
                outer@,
                Seq::new(nested@.len(), |i: int| nested@[i]@),
            ),
            r@.wf(),
    {
        Export {
            stage: ExportStage::Starting,
            target,
            file: file.to_owned(),
            limit,
            sources: Sources::new(outer, nested),
        }
    }
}

/// Takes a response that a driver writes one event further, and tells what is to be done next.
pub fn write_with_driver(held: &mut Export<'_>, event: ExportEvent) -> (r: ExportAction)
    requires
        old(held)@.wf(),
        old(held)@.expects(event@),
    ensures
        (final(held)@, r@) == old(held)@.next(event@),
        final(held)@.wf(),
{
    match event {
        ExportEvent::Started => {
            held.stage = ExportStage::Describing;
            ExportAction::Describe(held.sources.describe_sql())
        },
        ExportEvent::Described(rows) => {
            if held.sources.describe(rows) {
                held.stage = ExportStage::ReadingCrs;
                ExportAction::ReadCrs(held.sources.crs_sql())
            } else {
                held.stage = ExportStage::Done;
                ExportAction::Fail(PlanError::NoGeometry)
            }
        },
        ExportEvent::CrsRead(crs) => {
            if held.sources.take_crs(crs) {
                held.stage = ExportStage::Describing;
                ExportAction::Describe(held.sources.describe_sql())
            } else {
                held.stage = ExportStage::Planning;
                ExportAction::Plan
            }
        },
        ExportEvent::Planned(planned) => match planned {
            Ok(sql) => {
                held.stage = ExportStage::Copying;
                ExportAction::Copy(copy_statement(sql.as_str(), held.file.as_str(), &held.target))
            },
            Err(e) => {
                held.stage = ExportStage::Done;
                ExportAction::Fail(e)
            },
        },
        ExportEvent::Copied { stopped, failed, size } => {
            match export_outcome(stopped, failed, size, held.limit) {
                Written::Kept => {
                    held.stage = ExportStage::Looking;
                    ExportAction::Look
                },
                Written::Failed => {
                    held.stage = ExportStage::Done;
                    ExportAction::FailDatabase
                },
                Written::TooLarge(fault) => {
                    held.stage = ExportStage::Done;
                    ExportAction::FailLarge(fault)
                },
            }
        },
        ExportEvent::Looked(is_dir) => {
            if is_dir {
                held.stage = ExportStage::Done;
                ExportAction::FailSeveral(several_files(held.target.driver.name))
            } else {
                held.stage = ExportStage::Reading;
                ExportAction::BeReady
            }
        },
        ExportEvent::Read(bytes) => {
            if bytes.len() == 0 {
                held.stage = ExportStage::Done;
                ExportAction::Stop
            } else {
                held.stage = ExportStage::Sending;
                ExportAction::Send(bytes)
            }
        },
        ExportEvent::Sent(more) => {
            if more {
                held.stage = ExportStage::Reading;
                ExportAction::Read
            } else {
                held.stage = ExportStage::Done;
                ExportAction::Stop
            }
        },
    }
}

/// A response is planned only once each of its sources is described, in the order in which they were
/// asked for, and each has a geometry.
pub proof fn written_with_every_source(held: ExportModel, event: ExportEventModel)
    requires
        held.wf(),
        held.expects(event),
        held.next(event).1 == ExportActionModel::Plan,
    ensures
        ({
            let sources = held.next(event).0.sources;
            &&& sources.asked == held.sources.asked
            &&& sources.described.len() == sources.asked.len()
            &&& forall|i: int|
                0 <= i < sources.described.len() ==> {
                    let known = #[trigger] sources.described[i];
                    &&& known.source == sources.asked[i].source
                    &&& known.encoding == sources.asked[i].encoding
                    &&& geometry_column(known.columns) is Some
                }
        }),
{
}

// Connections.

/// One of some texts says that the database cannot be used any more.
pub open spec fn says_invalidated(causes: Seq<Seq<char>>) -> bool {
    exists|i: int| 0 <= i < causes.len() && (has_text(
        #[trigger] causes[i],
        "database has been invalidated"@,
    ) || has_text(causes[i], "FATAL Error"@) || has_text(causes[i], "INTERNAL Error"@))
}

/// Whether one of the causes of an error says that the database cannot be used any more.
pub fn database_is_invalidated(causes: &Vec<String>) -> (r: bool)
    ensures
        r == says_invalidated(views(causes@)),
{
    let ghost all = views(causes@);
    proof {
        reveal_strlit("database has been invalidated");
        reveal_strlit("FATAL Error");
        reveal_strlit("INTERNAL Error");
    }
    let mut i: usize = 0;
    while i < causes.len()
        invariant
            i <= causes@.len(),
            all == views(causes@),
            "database has been invalidated"@.len() > 0,
            "FATAL Error"@.len() > 0,
            "INTERNAL Error"@.len() > 0,
            forall|j: int|
                0 <= j < i ==> !has_text(#[trigger] all[j], "database has been invalidated"@)
                    && !has_text(all[j], "FATAL Error"@) && !has_text(all[j], "INTERNAL Error"@),
        decreases causes@.len() - i,
    {
        assert(all[i as int] == causes@[i as int]@);
        let cause = causes[i].as_str();
        if contains(cause, "database has been invalidated") || contains(cause, "FATAL Error")
            || contains(cause, "INTERNAL Error") {
            return true;
        }
        i += 1;
    }
    false
}

/// What a thread keeps of its connection: whether it has one.
#[derive(Debug, Clone, Copy, PartialEq, Eq, Structural)]
pub struct Slot {
    pub open: bool,
}

impl Slot {
    /// No connection yet.
    pub fn new() -> (r: Slot)
        ensures
            !r.open,
    {
        Slot { open: false }
    }

    /// Whether a connection is to be opened before a query; from then on there is one.
    pub fn acquire(&mut self) -> (r: bool)
        ensures
            r == !old(self).open,
            final(self).open,
    {
        let fresh = !self.open;
        self.open = true;
        fresh
    }

    /// Whether the connection is to be thrown away after a query that failed for these causes, if
    /// it failed: where the database cannot be used any more.
    pub fn release(&mut self, causes: Option<&Vec<String>>) -> (r: bool)
        ensures
            r == (causes matches Some(causes) && says_invalidated(views(causes@))),
            final(self).open == (old(self).open && !r),
    {
        let discard = match causes {
            Some(causes) => database_is_invalidated(causes),
            None => false,
        };
        if discard {
            self.open = false;
        }
        discard
    }
}

/// Whether the extension that reads geometries was installed, and why not.
#[derive(Debug, Clone, PartialEq, Eq)]
pub struct Installed {
    pub outcome: Option<Result<(), String>>,
}

/// What has come of installing the extension: the outcome of the first try, which stands from then
/// on. `attempt` is the outcome of a try that was made because there was none before.
pub fn install_extensions(held: &mut Installed, attempt: Option<Result<(), String>>) -> (r: Option<
    Result<(), String>,
>)
    ensures
        final(held).outcome == (if old(held).outcome is Some {
            old(held).outcome
        } else {
            attempt
        }),
        match (r, final(held).outcome) {
            (Some(Ok(_)), Some(Ok(_))) => true,
            (Some(Err(e)), Some(Err(want))) => e@ == want@,
            (None, None) => true,
            _ => false,
        },
{
    if held.outcome.is_none() {
        held.outcome = attempt;
    }
    match &held.outcome {
        Some(Ok(_)) => Some(Ok(())),
        Some(Err(e)) => Some(Err(e.clone())),
        None => None,
    }
}

} // verus!
