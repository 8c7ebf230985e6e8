//! Filters.

use vstd::prelude::*;
use vstd::slice::slice_subrange;

use crate::ast::{
    among, call1, case, cast, column, each_sound, flag, in_quotes, infix, lower, not, raw, says,
    select_from, slots_are_sound, slots_sound, template1, template2, text, Infix, Relation,
    RelationModel, Select, SelectModel, Sql, SqlExpr,
};
use crate::backend::{DialectDef, UnknownOp};
use crate::grammar::{
    answers, answers_to, are_core, boolean_of, core_filters, filter_at, filter_at_bounds,
    find_shape, geometry_type_of, is_filter, takes, Boolean, FromParam, GeometryType, Grammar,
    Param, SegmentDef,
};
use crate::parexp::{
    as_integer_range, count, count_tells_expansion, counted, expand, expansion, integer_range,
    MAX_EXPANSION,
};
use crate::query::fields;
use crate::sql::{Pipeline, PipelineModel, PlanError};
use crate::url::{Segment, SegmentModel};
use crate::text::{
    begins, chars_of, decimal, decimal_text, ends, find, first_match, has_text, is_digit,
    is_digit_spec, joined, lowered, part, same, same_ignoring_case, stands_at, string_of, views,
};

verus! {

/// Why a filter cannot be turned into a condition.
#[derive(Debug, PartialEq)]
pub enum FilterError<S = String> {
    NoIdColumn,
    UnknownFilter(S),
    BadParams(S),
    ExpansionTooLarge(S),
    UnknownColumn(S),
    UnknownOperator(S),
    NotANumber(S),
    NotOneValue(S),
    NotABoolean(S),
    UnknownGeometryType(S),
}

impl FilterError {
    pub open spec fn model(self) -> FilterError<Seq<char>> {
        match self {
            FilterError::NoIdColumn => FilterError::NoIdColumn,
            FilterError::UnknownFilter(s) => FilterError::UnknownFilter(s@),
            FilterError::BadParams(s) => FilterError::BadParams(s@),
            FilterError::ExpansionTooLarge(s) => FilterError::ExpansionTooLarge(s@),
            FilterError::UnknownColumn(s) => FilterError::UnknownColumn(s@),
            FilterError::UnknownOperator(s) => FilterError::UnknownOperator(s@),
            FilterError::NotANumber(s) => FilterError::NotANumber(s@),
            FilterError::NotOneValue(s) => FilterError::NotOneValue(s@),
            FilterError::NotABoolean(s) => FilterError::NotABoolean(s@),
            FilterError::UnknownGeometryType(s) => FilterError::UnknownGeometryType(s@),
        }
    }
}

/// What went wrong, in words.
pub open spec fn filter_message(e: FilterError<Seq<char>>) -> Seq<char> {
    match e {
        FilterError::NoIdColumn =>
            "source has no id column, expected one of: id, fid, gid, objectid"@,
        FilterError::UnknownFilter(name) => "unknown filter: "@ + name,
        FilterError::BadParams(name) => "filter has the wrong number of parameters: "@ + name,
        FilterError::ExpansionTooLarge(pattern) => "pattern expands past the limit of "@ + decimal(
            MAX_EXPANSION as nat,
        ) + " values: "@ + pattern,
        FilterError::UnknownColumn(key) => "source has no column: "@ + key,
        FilterError::UnknownOperator(op) => "unknown property operator: "@ + op,
        FilterError::NotANumber(value) => "a numeric column needs a numeric value: "@ + value,
        FilterError::NotOneValue(pattern) =>
            "this operator takes a single value, not a pattern: "@ + pattern,
        FilterError::NotABoolean(value) => "this filter takes true or false: "@ + value,
        FilterError::UnknownGeometryType(value) => "unknown geometry type: "@ + value
            + ", expected one of: POINT, LINESTRING, POLYGON, MULTIPOINT, MULTILINESTRING, MULTIPOLYGON, GEOMETRYCOLLECTION"@,
    }
}

impl FilterError {
    /// What went wrong, in words.
    pub fn message(&self) -> (r: String)
        ensures
            r@ == filter_message(self.model()),
    {
        match self {
            FilterError::NoIdColumn => {
                "source has no id column, expected one of: id, fid, gid, objectid".to_owned()
            },
            FilterError::UnknownFilter(name) => joined("unknown filter: ", name.as_str()),
            FilterError::BadParams(name) => joined(
                "filter has the wrong number of parameters: ",
                name.as_str(),
            ),
            FilterError::ExpansionTooLarge(pattern) => {
                let limit = joined(
                    "pattern expands past the limit of ",
                    decimal_text(MAX_EXPANSION as u64).as_str(),
                );
                joined(joined(limit.as_str(), " values: ").as_str(), pattern.as_str())
            },
            FilterError::UnknownColumn(key) => joined("source has no column: ", key.as_str()),
            FilterError::UnknownOperator(op) => joined("unknown property operator: ", op.as_str()),
            FilterError::NotANumber(value) => joined(
                "a numeric column needs a numeric value: ",
                value.as_str(),
            ),
            FilterError::NotOneValue(pattern) => joined(
                "this operator takes a single value, not a pattern: ",
                pattern.as_str(),
            ),
            FilterError::NotABoolean(value) => joined(
                "this filter takes true or false: ",
                value.as_str(),
            ),
            FilterError::UnknownGeometryType(value) => {
                let named = joined("unknown geometry type: ", value.as_str());
                joined(
                    named.as_str(),
                    ", expected one of: POINT, LINESTRING, POLYGON, MULTIPOINT, MULTILINESTRING, MULTIPOLYGON, GEOMETRYCOLLECTION",
                )
            },
        }
    }
}

/// What a filter works with: the pipeline and the columns of the source.
pub struct FilterCtx<'a> {
    pub pipeline: &'a mut Pipeline,
    pub columns: &'a [(String, String)],
}

/// Where the first column `name` stands, `columns.len()` where there is none.
pub open spec fn column_at(
    columns: Seq<(Seq<char>, Seq<char>)>,
    name: Seq<char>,
    from: int,
) -> int
    decreases columns.len() - from,
{
    if from >= columns.len() {
        columns.len() as int
    } else if columns[from].0 == name {
        from
    } else {
        column_at(columns, name, from + 1)
    }
}

/// The first column `name`: its name and its type.
pub open spec fn column_of(columns: Seq<(Seq<char>, Seq<char>)>, name: Seq<char>) -> Option<
    (Seq<char>, Seq<char>),
> {
    let at = column_at(columns, name, 0);
    if at < columns.len() {
        Some(columns[at])
    } else {
        None
    }
}

fn find_column<'c>(columns: &'c [(String, String)], name: &str) -> (r: Option<
    &'c (String, String),
>)
    ensures
        match r {
            Some(c) => column_of(fields(columns@), name@) == Some((c.0@, c.1@)),
            None => column_of(fields(columns@), name@) is None,
        },
{
    let ghost all = fields(columns@);
    let mut i: usize = 0;
    while i < columns.len()
        invariant
            i <= columns@.len(),
            all == fields(columns@),
            column_at(all, name@, 0) == column_at(all, name@, i as int),
        decreases columns@.len() - i,
    {
        assert(all[i as int] == (columns@[i as int].0@, columns@[i as int].1@));
        if same(columns[i].0.as_str(), name) {
            return Some(&columns[i]);
        }
        i += 1;
    }
    None
}

impl<'a> FilterCtx<'a> {
    /// What the pipeline is.
    pub open spec fn state(self) -> PipelineModel {
        self.pipeline.model()
    }

    /// A context over a pipeline and the columns of its source.
    pub fn new(pipeline: &'a mut Pipeline, columns: &'a [(String, String)]) -> (r: FilterCtx<'a>)
        ensures
            *r.pipeline == *old(pipeline),
            *final(r.pipeline) == *final(pipeline),
            r.columns@ == columns@,
    {
        FilterCtx { pipeline, columns }
    }

    /// The dialect of the database.
    pub fn dialect(&self) -> (r: &DialectDef)
        ensures
            *r == self.state().backend.dialect,
    {
        self.pipeline.backend().dialect()
    }

    /// The operation `name` of the database applied to arguments.
    pub fn call(&self, name: &str, args: Vec<SqlExpr>) -> (r: Result<SqlExpr, UnknownOp>)
        requires
            self.state().backend.vocabulary.knows(name@) ==> args@.len()
                >= self.state().backend.vocabulary.op(name@).op.arity(),
        ensures
            r is Ok <==> self.state().backend.vocabulary.knows(name@),
            match r {
                Ok(e) => e.model() == self.state().backend.vocabulary.op(
                    name@,
                ).op.applied(says(args@)) && (each_sound(says(args@)) ==> e.model().sound()),
                Err(e) => e.0@ == name@,
            },
    {
        self.pipeline.backend().call(name, args)
    }

    /// Whether the database has an operation `name`.
    pub fn has(&self, name: &str) -> (r: bool)
        ensures
            r == self.state().backend.vocabulary.knows(name@),
    {
        self.pipeline.backend().has(name)
    }

    /// The name of the geometry column.
    pub fn geometry(&self) -> (r: &str)
        ensures
            r@ == self.state().geometry,
    {
        self.pipeline.geometry()
    }

    /// The geometry column.
    pub fn geom(&self) -> (r: SqlExpr)
        ensures
            r.model() == Sql::Column(self.state().geometry),
            r.model().sound(),
    {
        self.pipeline.geom()
    }

    /// The reference system of the geometry.
    pub fn crs(&self) -> (r: &str)
        ensures
            r@ == self.state().crs,
    {
        self.pipeline.crs()
    }

    /// The geometry in another reference system: as it is where that is the one it has.
    pub fn transform(&self, target: &str) -> (r: SqlExpr)
        ensures
            r.model() == self.state().moved(target@),
            r.model().sound(),
    {
        self.pipeline.transform(target)
    }

    /// What the side table `name` over the relation to read next is called.
    pub fn cte(&self, name: &str) -> (r: Option<String>)
        ensures
            match r {
                Some(alias) => self.state().table("filter"@, name@) == Some(alias@),
                None => self.state().table("filter"@, name@) is None,
            },
    {
        self.pipeline.cte_of("filter", name)
    }

    /// Has the side table `name` over the relation to read next, building it with `build` from
    /// that relation's name where there is none yet, and tells what it is called.
    pub fn cte_once<F: FnOnce(&str) -> Select>(&mut self, name: &str, build: F) -> (r: String)
        requires
            old(self).pipeline.wf(),
            old(self).pipeline.model().table("filter"@, name@) is None ==> {
                &&& forall|from: &str|
                    from@ == old(self).pipeline.model().input ==> call_requires(build, (from,))
                &&& forall|from: &str, select: Select|
                    from@ == old(self).pipeline.model().input && #[trigger] call_ensures(
                        build,
                        (from,),
                        select,
                    ) ==> select.model().sound()
            },
        ensures
            *final(final(self).pipeline) == *final(old(self).pipeline),
            final(self).columns == old(self).columns,
            final(self).pipeline.wf(),
            match old(self).pipeline.model().table("filter"@, name@) {
                Some(alias) => r@ == alias && final(self).pipeline.model() == old(
                    self,
                ).pipeline.model(),
                None => r@ == old(self).pipeline.model().next_table("filter"@, name@) && exists|
                    from: &str,
                    select: Select,
                | #[trigger]
                    call_ensures(build, (from,), select) && from@ == old(
                        self,
                    ).pipeline.model().input && final(self).pipeline.model() == old(
                        self,
                    ).pipeline.model().tabled("filter"@, name@, select.model()),
            },
    {
        self.pipeline.cte_once_for("filter", name, build)
    }

    /// The names and types of the columns.
    pub fn columns(&self) -> (r: &[(String, String)])
        ensures
            r@ == self.columns@,
    {
        self.columns
    }

    /// The first column `name`.
    pub fn column(&self, name: &str) -> (r: Option<&(String, String)>)
        ensures
            match r {
                Some(c) => column_of(fields(self.columns@), name@) == Some((c.0@, c.1@)),
                None => column_of(fields(self.columns@), name@) is None,
            },
    {
        find_column(self.columns, name)
    }
}

// Values.

/// What kind of number a column holds.
#[derive(Debug, Clone, Copy, PartialEq, Eq, Structural)]
pub enum NumericKind {
    Integer,
    Exact,
    Approximate,
}

/// The types of integers.
pub open spec fn integer_types() -> Seq<Seq<char>> {
    seq![
        "TINYINT"@,
        "SMALLINT"@,
        "INTEGER"@,
        "BIGINT"@,
        "HUGEINT"@,
        "UTINYINT"@,
        "USMALLINT"@,
        "UINTEGER"@,
        "UBIGINT"@,
        "UHUGEINT"@,
    ]
}

/// The kind of number that a column type holds, if it holds numbers: the name before any
/// parenthesis decides, and nothing may follow the closing one.
pub open spec fn numeric_kind_of(kind: Seq<char>) -> Option<NumericKind> {
    let at = first_match(kind, "("@, 0);
    let name = kind.take(at);
    let open = at + 1 < kind.len() && kind.last() != ')';
    if open {
        None
    } else if integer_types().contains(name) {
        Some(NumericKind::Integer)
    } else if name == "DECIMAL"@ || name == "NUMERIC"@ {
        Some(NumericKind::Exact)
    } else if name == "FLOAT"@ || name == "DOUBLE"@ || name == "REAL"@ {
        Some(NumericKind::Approximate)
    } else {
        None
    }
}

fn integer_type_names() -> (r: Vec<&'static str>)
    ensures
        views(r@) == integer_types(),
{
    let r: Vec<&'static str> = vec![
        "TINYINT",
        "SMALLINT",
        "INTEGER",
        "BIGINT",
        "HUGEINT",
        "UTINYINT",
        "USMALLINT",
        "UINTEGER",
        "UBIGINT",
        "UHUGEINT",
    ];
    assert(views(r@) =~= integer_types());
    r
}

fn one_of(v: &Vec<&'static str>, s: &str) -> (r: bool)
    ensures
        r == views(v@).contains(s@),
{
    let mut i: usize = 0;
    while i < v.len()
        invariant
            i <= v@.len(),
            forall|j: int| 0 <= j < i ==> #[trigger] views(v@)[j] != s@,
        decreases v@.len() - i,
    {
        assert(views(v@)[i as int] == v@[i as int]@);
        if same(v[i], s) {
            return true;
        }
        i += 1;
    }
    false
}

fn numeric_kind(kind: &str) -> (r: Option<NumericKind>)
    ensures
        r == numeric_kind_of(kind@),
{
    let chars = chars_of(kind);
    let open: [char; 1] = ['('];
    proof {
        reveal_strlit("(");
        assert(open@ =~= "("@);
    }
    let at = find(chars.as_slice(), &open, 0);
    if chars.len() > 1 && at < chars.len() - 1 && chars[chars.len() - 1] != ')' {
        return None;
    }
    let name = string_of(part(chars.as_slice(), 0, at));
    assert(name@ =~= kind@.take(at as int));
    if one_of(&integer_type_names(), name.as_str()) {
        Some(NumericKind::Integer)
    } else if same(name.as_str(), "DECIMAL") || same(name.as_str(), "NUMERIC") {
        Some(NumericKind::Exact)
    } else if same(name.as_str(), "FLOAT") || same(name.as_str(), "DOUBLE") || same(
        name.as_str(),
        "REAL",
    ) {
        Some(NumericKind::Approximate)
    } else {
        None
    }
}

/// `value` without the sign before it.
pub open spec fn unsigned(value: Seq<char>) -> Seq<char> {
    if value.len() > 0 && value[0] == '-' {
        value.skip(1)
    } else {
        value
    }
}

/// `value` is a decimal number: an optional minus sign, at least one digit, at most one dot, and
/// nothing else.
pub open spec fn is_number(value: Seq<char>) -> bool {
    let body = unsigned(value);
    &&& exists|i: int| 0 <= i < body.len() && is_digit_spec(#[trigger] body[i])
    &&& forall|i: int| 0 <= i < body.len() ==> is_digit_spec(#[trigger] body[i]) || body[i] == '.'
    &&& forall|i: int, j: int|
        0 <= i < j < body.len() ==> !(#[trigger] body[i] == '.' && #[trigger] body[j] == '.')
}

/// Whether `value` is a decimal number.
pub fn numeral(value: &str) -> (r: bool)
    ensures
        r == is_number(value@),
{
    let chars = chars_of(value);
    let start: usize = if chars.len() > 0 && chars[0] == '-' {
        1
    } else {
        0
    };
    let body = part(chars.as_slice(), start, chars.len());
    assert(body@ =~= unsigned(value@));
    let mut digits = false;
    let mut dots = false;
    let mut i: usize = 0;
    while i < body.len()
        invariant
            i <= body@.len(),
            body@ == unsigned(value@),
            digits == exists|j: int| 0 <= j < i && is_digit_spec(#[trigger] body@[j]),
            dots == exists|j: int| 0 <= j < i && #[trigger] body@[j] == '.',
            forall|j: int| 0 <= j < i ==> is_digit_spec(#[trigger] body@[j]) || body@[j] == '.',
            forall|j: int, k: int|
                0 <= j < k < i ==> !(#[trigger] body@[j] == '.' && #[trigger] body@[k] == '.'),
        decreases body@.len() - i,
    {
        let c = body[i];
        if c == '.' {
            if dots {
                let ghost j = choose|j: int| 0 <= j < i && #[trigger] body@[j] == '.';
                assert(body@[j] == '.' && body@[i as int] == '.');
                return false;
            }
            dots = true;
        } else if is_digit(c) {
            digits = true;
        } else {
            assert(!is_digit_spec(body@[i as int]) && body@[i as int] != '.');
            return false;
        }
        i += 1;
    }
    digits
}

/// `value` in upper or lower case is true or false.
fn boolean(value: &str) -> (r: Result<bool, FilterError>)
    ensures
        match (r, boolean_of(value@)) {
            (Ok(b), Some(want)) => b == want,
            (Err(e), None) => e.model() == FilterError::NotABoolean(value@),
            _ => false,
        },
{
    match Boolean::from_param(value) {
        Some(b) => Ok(b.0),
        None => Err(FilterError::NotABoolean(value.to_owned())),
    }
}

/// The geometry type that `value` names.
fn named_type(value: &str) -> (r: Result<&'static str, FilterError>)
    ensures
        match (r, geometry_type_of(value@)) {
            (Ok(name), Some(want)) => name@ == want,
            (Err(e), None) => e.model() == FilterError::UnknownGeometryType(value@),
            _ => false,
        },
{
    match GeometryType::from_param(value) {
        Some(t) => Ok(t.0),
        None => Err(FilterError::UnknownGeometryType(value.to_owned())),
    }
}

/// `s` with a backslash before each character that a pattern would not take as it is.
pub open spec fn escaped(s: Seq<char>) -> Seq<char>
    decreases s.len(),
{
    if s.len() == 0 {
        s
    } else {
        let c = s.last();
        let before = escaped(s.drop_last());
        if c == '\\' || c == '%' || c == '_' {
            before.push('\\').push(c)
        } else {
            before.push(c)
        }
    }
}

/// The pattern that asks for a text beginning with `value` (`sw`), ending with it (`ew`) or
/// holding it.
pub open spec fn anchored(operator: Seq<char>, value: Seq<char>) -> Seq<char> {
    if operator == "sw"@ {
        escaped(value).push('%')
    } else if operator == "ew"@ {
        seq!['%'] + escaped(value)
    } else {
        (seq!['%'] + escaped(value)).push('%')
    }
}

fn anchor(operator: &str, value: &str) -> (r: String)
    ensures
        r@ == anchored(operator@, value@),
{
    let starts = same(operator, "sw");
    let ends = !starts && same(operator, "ew");
    let chars = chars_of(value);
    let mut out = String::new();
    if !starts {
        out.push('%');
    }
    let ghost lead = out@;
    let mut i: usize = 0;
    assert(value@.take(0) =~= Seq::<char>::empty());
    assert(lead + escaped(value@.take(0)) =~= lead);
    while i < chars.len()
        invariant
            i <= chars@.len(),
            chars@ == value@,
            out@ == lead + escaped(value@.take(i as int)),
        decreases chars@.len() - i,
    {
        let c = chars[i];
        let ghost before = out@;
        if c == '\\' || c == '%' || c == '_' {
            out.push('\\');
        }
        out.push(c);
        i += 1;
        assert(value@.take(i as int).drop_last() =~= value@.take(i as int - 1));
        assert(out@ =~= lead + escaped(value@.take(i as int)));
    }
    assert(value@.take(i as int) =~= value@);
    if !ends {
        out.push('%');
    }
    proof {
        if starts {
            assert(lead =~= Seq::<char>::empty());
            assert(out@ =~= anchored(operator@, value@));
        } else {
            assert(lead =~= seq!['%']);
            assert(out@ =~= anchored(operator@, value@));
        }
    }
    out
}

/// What `LIKE` takes a pattern to mean: a percent sign stands for any text, an underscore for any
/// character, and a backslash takes the next character as it is.
pub open spec fn is_like(pattern: Seq<char>, t: Seq<char>) -> bool
    decreases pattern.len(), t.len(),
{
    if pattern.len() == 0 {
        t.len() == 0
    } else if pattern[0] == '%' {
        is_like(pattern.skip(1), t) || (t.len() > 0 && is_like(pattern, t.skip(1)))
    } else if t.len() == 0 {
        false
    } else if pattern[0] == '_' {
        is_like(pattern.skip(1), t.skip(1))
    } else if pattern[0] == '\\' && pattern.len() > 1 {
        t[0] == pattern[1] && is_like(pattern.skip(2), t.skip(1))
    } else {
        t[0] == pattern[0] && is_like(pattern.skip(1), t.skip(1))
    }
}

proof fn escaped_from_the_front(v: Seq<char>)
    requires
        v.len() > 0,
    ensures
        escaped(v) == escaped(seq![v[0]]) + escaped(v.skip(1)),
        escaped(seq![v[0]]) == if v[0] == '\\' || v[0] == '%' || v[0] == '_' {
            seq!['\\', v[0]]
        } else {
            seq![v[0]]
        },
    decreases v.len(),
{
    let one = seq![v[0]];
    assert(one.drop_last() =~= Seq::<char>::empty());
    assert(escaped(one.drop_last()) =~= Seq::<char>::empty());
    assert(escaped(one) =~= if v[0] == '\\' || v[0] == '%' || v[0] == '_' {
        seq!['\\', v[0]]
    } else {
        seq![v[0]]
    });
    if v.len() == 1 {
        assert(v =~= one);
        assert(v.skip(1) =~= Seq::<char>::empty());
        assert(escaped(v) =~= escaped(one) + escaped(v.skip(1)));
    } else {
        escaped_from_the_front(v.drop_last());
        assert(v.skip(1).drop_last() =~= v.drop_last().skip(1));
        assert(escaped(v) =~= escaped(one) + escaped(v.skip(1)));
    }
}

proof fn escaped_is_itself(v: Seq<char>, rest: Seq<char>, t: Seq<char>)
    ensures
        is_like(escaped(v) + rest, t) <==> begins(t, v) && is_like(rest, t.skip(v.len() as int)),
    decreases v.len(),
{
    if v.len() == 0 {
        assert(escaped(v) + rest =~= rest);
        assert(t.skip(0) =~= t);
        assert(t.subrange(0, 0) =~= v);
    } else {
        escaped_from_the_front(v);
        let c = v[0];
        let tail = v.skip(1);
        let pattern = escaped(v) + rest;
        let after = escaped(tail) + rest;
        if t.len() > 0 {
            escaped_is_itself(tail, rest, t.skip(1));
            if v.len() <= t.len() {
                assert(t.skip(1).skip(tail.len() as int) =~= t.skip(v.len() as int));
            }
            if begins(t, v) {
                assert(t.subrange(0, v.len() as int)[0] == c);
                assert(t.skip(1).subrange(0, tail.len() as int) =~= t.subrange(
                    0,
                    v.len() as int,
                ).skip(1));
            }
            if t[0] == c && begins(t.skip(1), tail) {
                assert(t.subrange(0, v.len() as int) =~= seq![c] + t.skip(1).subrange(
                    0,
                    tail.len() as int,
                ));
                assert(v =~= seq![c] + tail);
            }
        }
        if c == '\\' || c == '%' || c == '_' {
            assert(pattern =~= seq!['\\', c] + after);
            assert(pattern.skip(2) =~= after);
        } else {
            assert(pattern =~= seq![c] + after);
            assert(pattern.skip(1) =~= after);
        }
    }
}

proof fn percent_skips(rest: Seq<char>, t: Seq<char>)
    ensures
        is_like(seq!['%'] + rest, t) <==> exists|k: int|
            0 <= k <= t.len() && #[trigger] is_like(rest, t.skip(k)),
    decreases t.len(),
{
    let pattern = seq!['%'] + rest;
    assert(pattern.len() > 0 && pattern[0] == '%');
    assert(pattern.skip(1) =~= rest);
    assert(t.skip(0) =~= t);
    if t.len() == 0 {
        assert(is_like(pattern, t) == is_like(rest, t));
        if is_like(rest, t) {
            assert(is_like(rest, t.skip(0)));
        }
        if exists|k: int| 0 <= k <= t.len() && #[trigger] is_like(rest, t.skip(k)) {
            let k = choose|k: int| 0 <= k <= t.len() && #[trigger] is_like(rest, t.skip(k));
            assert(k == 0);
        }
    } else {
        let later = t.skip(1);
        percent_skips(rest, later);
        assert(is_like(pattern, t) == (is_like(rest, t) || is_like(pattern, later)));
        if is_like(rest, t) {
            assert(is_like(rest, t.skip(0)));
        }
        if is_like(pattern, later) {
            let k = choose|k: int|
                0 <= k <= later.len() && #[trigger] is_like(rest, later.skip(k));
            assert(later.skip(k) =~= t.skip(k + 1));
            assert(is_like(rest, t.skip(k + 1)));
        }
        if exists|k: int| 0 <= k <= t.len() && #[trigger] is_like(rest, t.skip(k)) {
            let k = choose|k: int| 0 <= k <= t.len() && #[trigger] is_like(rest, t.skip(k));
            if k > 0 {
                assert(later.skip(k - 1) =~= t.skip(k));
                assert(is_like(rest, later.skip(k - 1)));
            }
        }
    }
}

/// A value is taken as it is, whatever characters it has: the pattern of `sw` fits exactly the
/// texts that begin with it, that of `ew` those that end with it, and that of `ct` those that hold
/// it.
pub proof fn a_value_is_taken_as_it_is(value: Seq<char>, t: Seq<char>)
    ensures
        is_like(anchored("sw"@, value), t) <==> begins(t, value),
        is_like(anchored("ew"@, value), t) <==> ends(t, value),
        is_like(anchored("ct"@, value), t) <==> has_text(t, value),
{
    reveal_strlit("sw");
    reveal_strlit("ew");
    reveal_strlit("ct");
    assert("sw"@[0] != "ew"@[0] && "ct"@[0] != "sw"@[0] && "ct"@[0] != "ew"@[0]);
    let none = Seq::<char>::empty();
    let any = seq!['%'];
    let n = value.len() as int;
    assert(any + none =~= any);
    assert(anchored("sw"@, value) =~= escaped(value) + any);
    escaped_is_itself(value, any, t);
    if begins(t, value) {
        any_fits(t.skip(n));
    }
    let tail = escaped(value) + none;
    assert(tail =~= escaped(value));
    assert(anchored("ew"@, value) =~= any + tail);
    percent_skips(tail, t);
    assert forall|k: int| 0 <= k <= t.len() implies (#[trigger] is_like(tail, t.skip(k)) <==> k
        == t.len() - n && ends(t, value)) by {
        escaped_is_itself(value, none, t.skip(k));
        let rest = t.skip(k);
        if begins(rest, value) && is_like(none, rest.skip(n)) {
            assert(rest.len() == n);
            assert(rest.subrange(0, n) =~= t.subrange(k, k + n));
        }
        if k == t.len() - n && ends(t, value) {
            assert(rest.subrange(0, n) =~= t.subrange(k, k + n));
            assert(rest.skip(n) =~= none);
        }
    }
    if ends(t, value) {
        assert(is_like(tail, t.skip(t.len() - n)));
    }
    let middle = escaped(value) + any;
    assert(anchored("ct"@, value) =~= any + middle);
    percent_skips(middle, t);
    assert forall|k: int| 0 <= k <= t.len() implies (#[trigger] is_like(middle, t.skip(k))
        <==> stands_at(t, value, k)) by {
        escaped_is_itself(value, any, t.skip(k));
        let rest = t.skip(k);
        if k + n <= t.len() {
            assert(rest.subrange(0, n) =~= t.subrange(k, k + n));
            any_fits(rest.skip(n));
        }
    }
    if has_text(t, value) {
        let k = choose|k: int| stands_at(t, value, k);
        assert(is_like(middle, t.skip(k)));
    }
}

proof fn any_fits(t: Seq<char>)
    ensures
        is_like(seq!['%'], t),
    decreases t.len(),
{
    let any = seq!['%'];
    assert(any.skip(1) =~= Seq::<char>::empty());
    assert(is_like(any.skip(1), t) == (t.len() == 0));
    if t.len() > 0 {
        any_fits(t.skip(1));
    }
}

// Comparisons.

/// A value as text.
pub open spec fn as_text(e: Sql) -> Sql {
    Sql::Cast(Box::new(e), "VARCHAR"@)
}

fn to_text(e: SqlExpr) -> (r: SqlExpr)
    ensures
        r.model() == as_text(e.model()),
        e.model().sound() ==> r.model().sound(),
{
    cast(e, "VARCHAR")
}

/// The template that reads a value as a column's type, or as null where it is not of that type.
pub open spec fn try_cast(kind: Seq<char>) -> Seq<char> {
    "TRY_CAST($1 AS "@ + kind + ")"@
}

/// The type of a column that holds numbers can stand in a template without asking for arguments
/// of its own.
pub open spec fn kind_sound(kind: Seq<char>) -> bool {
    numeric_kind_of(kind) is Some ==> slots_sound(try_cast(kind), 1)
}

/// The types of all columns can stand in a template.
pub open spec fn columns_sound(columns: Seq<(Seq<char>, Seq<char>)>) -> bool {
    forall|i: int| 0 <= i < columns.len() ==> kind_sound((#[trigger] columns[i]).1)
}

/// Whether the types of all columns can stand in a template.
pub fn columns_are_sound(columns: &[(String, String)]) -> (r: bool)
    ensures
        r == columns_sound(fields(columns@)),
{
    let ghost all = fields(columns@);
    let mut i: usize = 0;
    while i < columns.len()
        invariant
            i <= columns@.len(),
            all == fields(columns@),
            forall|j: int| 0 <= j < i ==> kind_sound((#[trigger] all[j]).1),
        decreases columns@.len() - i,
    {
        assert(all[i as int] == (columns@[i as int].0@, columns@[i as int].1@));
        let kind = columns[i].1.as_str();
        if numeric_kind(kind).is_some() {
            let template = joined(joined("TRY_CAST($1 AS ", kind).as_str(), ")");
            if !slots_are_sound(template.as_str(), 1) {
                return false;
            }
        }
        i += 1;
    }
    true
}

/// Where the first of `values` that is not a number stands, `values.len()` where all are.
pub open spec fn not_number_at(values: Seq<Seq<char>>, from: int) -> int
    decreases values.len() - from,
{
    if from >= values.len() {
        values.len() as int
    } else if !is_number(values[from]) {
        from
    } else {
        not_number_at(values, from + 1)
    }
}

/// A value of the table function's column, as a column of this type holds it.
pub open spec fn member_of(kind: Seq<char>) -> Sql {
    if numeric_kind_of(kind) is Some {
        Sql::Template(try_cast(kind), seq![Sql::Column("v"@)])
    } else {
        Sql::Column("v"@)
    }
}

/// The select of the values of a pattern, without those that a column of this type cannot hold.
pub open spec fn members(kind: Seq<char>, pattern: Seq<char>) -> SelectModel {
    select_from(
        member_of(kind),
        RelationModel::Function("parexp"@, seq![Sql::Text(pattern)], "expanded"@),
        if numeric_kind_of(kind) is Some {
            Some(Sql::IsNotNull(Box::new(member_of(kind))))
        } else {
            None
        },
    )
}

/// The condition that `column`, of type `kind`, is one of the values of a pattern: a plain range
/// as two bounds, one value by itself, more through the table function. A column of numbers is
/// compared by value, and only with numbers; any other by its text.
pub open spec fn among_values(column: Sql, kind: Seq<char>, pattern: Seq<char>) -> Result<
    Sql,
    FilterError<Seq<char>>,
> {
    let numeric = numeric_kind_of(kind) is Some;
    let values = expansion(pattern);
    let bad = not_number_at(values, 0);
    let compared = if numeric {
        column
    } else {
        as_text(column)
    };
    if numeric && integer_range(pattern) is Some {
        let (lo, hi) = integer_range(pattern)->0;
        Ok(Sql::Between(Box::new(column), lo as int, hi as int))
    } else if counted(pattern, true, 0) > MAX_EXPANSION {
        Err(FilterError::ExpansionTooLarge(pattern))
    } else if numeric && bad < values.len() {
        Err(FilterError::NotANumber(values[bad]))
    } else if values.len() == 1 {
        let value = if numeric {
            Sql::Raw(values[0])
        } else {
            Sql::Text(values[0])
        };
        Ok(Sql::Binary(Box::new(compared), Infix::Equal, Box::new(value)))
    } else {
        Ok(Sql::Within(Box::new(compared), Box::new(members(kind, pattern))))
    }
}

fn member(kind: &str, numeric: bool) -> (r: SqlExpr)
    requires
        numeric == numeric_kind_of(kind@) is Some,
    ensures
        r.model() == member_of(kind@),
        kind_sound(kind@) ==> r.model().sound(),
{
    if numeric {
        let template = joined(joined("TRY_CAST($1 AS ", kind).as_str(), ")");
        template1(template.as_str(), column("v"))
    } else {
        column("v")
    }
}

fn value_set(name: &str, kind: &str, pattern: &str) -> (r: Result<SqlExpr, FilterError>)
    ensures
        match (r, among_values(Sql::Column(name@), kind@, pattern@)) {
            (Ok(e), Ok(want)) => e.model() == want && (kind_sound(kind@) ==> e.model().sound()),
            (Err(e), Err(want)) => e.model() == want,
            _ => false,
        },
{
    let numeric = numeric_kind(kind).is_some();
    if numeric {
        match as_integer_range(pattern) {
            Some((lo, hi)) => {
                let e = column(name);
                return Ok(SqlExpr::Between(Box::new(e), lo, hi));
            },
            None => {},
        }
    }
    if count(pattern) > MAX_EXPANSION {
        return Err(FilterError::ExpansionTooLarge(pattern.to_owned()));
    }
    let values = expand(pattern);
    let ghost all = expansion(pattern@);
    if numeric {
        let mut i: usize = 0;
        while i < values.len()
            invariant
                i <= values@.len(),
                numeric,
                numeric == numeric_kind_of(kind@) is Some,
                all == expansion(pattern@),
                all == views(values@),
                integer_range(pattern@) is None,
                counted(pattern@, true, 0) <= MAX_EXPANSION,
                not_number_at(all, 0) == not_number_at(all, i as int),
            decreases values@.len() - i,
        {
            assert(all[i as int] == values@[i as int]@);
            if !numeral(values[i].as_str()) {
                return Err(FilterError::NotANumber(values[i].clone()));
            }
            i += 1;
        }
    }
    let compared = if numeric {
        column(name)
    } else {
        to_text(column(name))
    };
    if values.len() == 1 {
        assert(all[0] == values@[0]@);
        let value = if numeric {
            raw(values[0].as_str())
        } else {
            text(values[0].as_str())
        };
        return Ok(infix(compared, Infix::Equal, value));
    }
    let args = vec![text(pattern)];
    assert(says(args@) =~= seq![Sql::Text(pattern@)]);
    let from = Relation::Function("parexp".to_owned(), args, "expanded".to_owned());
    assert(from.model() == RelationModel::Function(
        "parexp"@,
        seq![Sql::Text(pattern@)],
        "expanded"@,
    ));
    assert(Sql::Text(pattern@).sound());
    assert(from.model().sound());
    let mut select = Select::from(member(kind, numeric), from);
    if numeric {
        let held = member(kind, numeric);
        select = select.keeping(SqlExpr::IsNotNull(Box::new(held)));
    }
    assert(select.model() == members(kind@, pattern@));
    let r = SqlExpr::Within(Box::new(compared), Box::new(select));
    Ok(r)
}

/// Which rows an operator keeps that asks for an order.
pub open spec fn infix_of(operator: Seq<char>) -> Infix {
    if operator == "gt"@ {
        Infix::Greater
    } else if operator == "gte"@ {
        Infix::GreaterOrEqual
    } else if operator == "lt"@ {
        Infix::Less
    } else {
        Infix::LessOrEqual
    }
}

/// The condition that `column` stands in an order to one value: as a number where the column
/// holds numbers, else as text.
pub open spec fn in_relation(
    column: Sql,
    kind: Seq<char>,
    operator: Seq<char>,
    value: Seq<char>,
) -> Result<Sql, FilterError<Seq<char>>> {
    if numeric_kind_of(kind) is None {
        Ok(
            Sql::Binary(
                Box::new(as_text(column)),
                infix_of(operator),
                Box::new(Sql::Text(value)),
            ),
        )
    } else if is_number(value) {
        Ok(Sql::Binary(Box::new(column), infix_of(operator), Box::new(Sql::Raw(value))))
    } else {
        Err(FilterError::NotANumber(value))
    }
}

fn ordering(name: &str, kind: &str, operator: &str, value: &str) -> (r: Result<
    SqlExpr,
    FilterError,
>)
    ensures
        match (r, in_relation(Sql::Column(name@), kind@, operator@, value@)) {
            (Ok(e), Ok(want)) => e.model() == want && e.model().sound(),
            (Err(e), Err(want)) => e.model() == want,
            _ => false,
        },
{
    let (left, right) = if numeric_kind(kind).is_none() {
        (to_text(column(name)), text(value))
    } else if numeral(value) {
        (column(name), raw(value))
    } else {
        return Err(FilterError::NotANumber(value.to_owned()));
    };
    let op = if same(operator, "gt") {
        Infix::Greater
    } else if same(operator, "gte") {
        Infix::GreaterOrEqual
    } else if same(operator, "lt") {
        Infix::Less
    } else {
        Infix::LessOrEqual
    };
    Ok(infix(left, op, right))
}

/// The one value that a pattern stands for.
pub open spec fn single(pattern: Seq<char>) -> Result<Seq<char>, FilterError<Seq<char>>> {
    if counted(pattern, true, 0) == 1 {
        Ok(expansion(pattern)[0])
    } else {
        Err(FilterError::NotOneValue(pattern))
    }
}

fn literal(pattern: &str) -> (r: Result<String, FilterError>)
    ensures
        match (r, single(pattern@)) {
            (Ok(value), Ok(want)) => value@ == want,
            (Err(e), Err(want)) => e.model() == want,
            _ => false,
        },
{
    if count(pattern) != 1 {
        return Err(FilterError::NotOneValue(pattern.to_owned()));
    }
    let values = expand(pattern);
    proof {
        count_tells_expansion(pattern@);
    }
    assert(expansion(pattern@)[0] == values@[0]@);
    Ok(values[0].clone())
}

/// An operator and what it is applied to, from the parameters of a filter. One parameter is
/// `null`, `notnull` or a value to be equal to.
pub open spec fn operation(params: Seq<Seq<char>>) -> Option<(Seq<char>, Seq<char>)> {
    if params.len() == 1 && (params[0] == "null"@ || params[0] == "notnull"@) {
        Some((params[0], ""@))
    } else if params.len() == 1 {
        Some(("eq"@, params[0]))
    } else if params.len() == 2 {
        Some((params[0], params[1]))
    } else {
        None
    }
}

/// The condition that an operator makes of `column`, of type `kind`, and a pattern.
pub open spec fn operated(
    column: Sql,
    kind: Seq<char>,
    operator: Seq<char>,
    pattern: Seq<char>,
) -> Result<Sql, FilterError<Seq<char>>> {
    if operator == "null"@ {
        Ok(Sql::IsNull(Box::new(column)))
    } else if operator == "notnull"@ {
        Ok(Sql::IsNotNull(Box::new(column)))
    } else if operator == "eq"@ || operator == "in"@ {
        among_values(column, kind, pattern)
    } else if operator == "ne"@ || operator == "nin"@ {
        match among_values(column, kind, pattern) {
            Ok(e) => Ok(Sql::Not(Box::new(e))),
            Err(e) => Err(e),
        }
    } else if operator == "ieq"@ {
        match single(pattern) {
            Ok(value) => Ok(
                Sql::Binary(
                    Box::new(Sql::Lower(Box::new(as_text(column)))),
                    Infix::Equal,
                    Box::new(Sql::Lower(Box::new(Sql::Text(value)))),
                ),
            ),
            Err(e) => Err(e),
        }
    } else if operator == "gt"@ || operator == "gte"@ || operator == "lt"@ || operator == "lte"@ {
        match single(pattern) {
            Ok(value) => in_relation(column, kind, operator, value),
            Err(e) => Err(e),
        }
    } else if operator == "sw"@ || operator == "ew"@ || operator == "ct"@ {
        match single(pattern) {
            Ok(value) => Ok(Sql::Like(Box::new(as_text(column)), anchored(operator, value))),
            Err(e) => Err(e),
        }
    } else if operator == "isw"@ || operator == "iew"@ || operator == "ict"@ {
        match single(pattern) {
            Ok(value) => Ok(
                Sql::Template(
                    "LOWER($1) LIKE LOWER($2) ESCAPE '\\'"@,
                    seq![as_text(column), Sql::Text(anchored(operator.skip(1), value))],
                ),
            ),
            Err(e) => Err(e),
        }
    } else {
        Err(FilterError::UnknownOperator(operator))
    }
}

/// The condition that a filter makes of a column and its parameters.
pub open spec fn compared(
    column: (Seq<char>, Seq<char>),
    params: Seq<Seq<char>>,
    filter: Seq<char>,
) -> Result<Sql, FilterError<Seq<char>>> {
    match operation(params) {
        Some((operator, pattern)) => operated(Sql::Column(column.0), column.1, operator, pattern),
        None => Err(FilterError::BadParams(filter)),
    }
}

/// A value by itself, `eq` and `in` make the same condition, and `ne` and `nin` its opposite, or the
/// same error, unless the value by itself asks for nulls.
pub proof fn operators_of_a_value(
    column: (Seq<char>, Seq<char>),
    value: Seq<char>,
    filter: Seq<char>,
)
    requires
        value != "null"@,
        value != "notnull"@,
    ensures
        compared(column, seq!["eq"@, value], filter) == compared(column, seq![value], filter),
        compared(column, seq!["in"@, value], filter) == compared(column, seq![value], filter),
        compared(column, seq!["ne"@, value], filter) == (match compared(
            column,
            seq![value],
            filter,
        ) {
            Ok(e) => Ok(Sql::Not(Box::new(e))),
            Err(e) => Err(e),
        }),
        compared(column, seq!["nin"@, value], filter) == compared(
            column,
            seq!["ne"@, value],
            filter,
        ),
{
    reveal_strlit("null");
    reveal_strlit("notnull");
    reveal_strlit("eq");
    reveal_strlit("in");
    reveal_strlit("ne");
    reveal_strlit("nin");
    assert("eq"@[0] == 'e' && "in"@[0] == 'i' && "ne"@[0] == 'n' && "ne"@[1] == 'e');
    assert("nin"@.len() == 3 && "null"@.len() == 4);
}

proof fn like_sound()
    ensures
        slots_sound("LOWER($1) LIKE LOWER($2) ESCAPE '\\'"@, 2),
{
    reveal_strlit("LOWER($1) LIKE LOWER($2) ESCAPE '\\'");
    reveal_with_fuel(in_quotes, 25);
}

/// The condition that a filter makes of a column and its parameters.
pub fn compare(held: &(String, String), params: &[String], filter: &str) -> (r: Result<
    SqlExpr,
    FilterError,
>)
    ensures
        match (r, compared((held.0@, held.1@), views(params@), filter@)) {
            (Ok(e), Ok(want)) => e.model() == want && (kind_sound(held.1@) ==> e.model().sound()),
            (Err(e), Err(want)) => e.model() == want,
            _ => false,
        },
{
    let name = held.0.as_str();
    let kind = held.1.as_str();
    let ghost all = views(params@);
    let (operator, raw) = if params.len() == 1 {
        assert(all[0] == params@[0]@);
        if same(params[0].as_str(), "null") || same(params[0].as_str(), "notnull") {
            (params[0].as_str(), "")
        } else {
            ("eq", params[0].as_str())
        }
    } else if params.len() == 2 {
        assert(all[0] == params@[0]@ && all[1] == params@[1]@);
        (params[0].as_str(), params[1].as_str())
    } else {
        return Err(FilterError::BadParams(filter.to_owned()));
    };
    assert(operation(all) == Some((operator@, raw@)));
    if same(operator, "null") {
        let e = column(name);
        return Ok(SqlExpr::IsNull(Box::new(e)));
    }
    if same(operator, "notnull") {
        let e = column(name);
        return Ok(SqlExpr::IsNotNull(Box::new(e)));
    }
    if same(operator, "eq") || same(operator, "in") {
        return value_set(name, kind, raw);
    }
    if same(operator, "ne") || same(operator, "nin") {
        return match value_set(name, kind, raw) {
            Ok(e) => Ok(not(e)),
            Err(e) => Err(e),
        };
    }
    if same(operator, "ieq") {
        return match literal(raw) {
            Ok(value) => Ok(
                infix(
                    lower(to_text(column(name))),
                    Infix::Equal,
                    lower(text(value.as_str())),
                ),
            ),
            Err(e) => Err(e),
        };
    }
    if same(operator, "gt") || same(operator, "gte") || same(operator, "lt") || same(
        operator,
        "lte",
    ) {
        return match literal(raw) {
            Ok(value) => ordering(name, kind, operator, value.as_str()),
            Err(e) => Err(e),
        };
    }
    if same(operator, "sw") || same(operator, "ew") || same(operator, "ct") {
        return match literal(raw) {
            Ok(value) => {
                let e = to_text(column(name));
                Ok(SqlExpr::Like(Box::new(e), anchor(operator, value.as_str())))
            },
            Err(e) => Err(e),
        };
    }
    if same(operator, "isw") || same(operator, "iew") || same(operator, "ict") {
        return match literal(raw) {
            Ok(value) => {
                proof {
                    like_sound();
                    reveal_strlit("isw");
                    reveal_strlit("iew");
                    reveal_strlit("ict");
                }
                let chars = chars_of(operator);
                let inner = string_of(part(chars.as_slice(), 1, chars.len()));
                assert(inner@ =~= operator@.skip(1));
                Ok(
                    template2(
                        "LOWER($1) LIKE LOWER($2) ESCAPE '\\'",
                        to_text(column(name)),
                        text(anchor(inner.as_str(), value.as_str()).as_str()),
                    ),
                )
            },
            Err(e) => Err(e),
        };
    }
    Err(FilterError::UnknownOperator(operator.to_owned()))
}

// Filters.

/// What a filter does: from its parameters to a condition, with such side tables as it needs.
pub trait FilterFn: Send + Sync {
    /// The pipeline with the filter's side tables, and the condition.
    open spec fn kept(
        &self,
        p: PipelineModel,
        columns: Seq<(Seq<char>, Seq<char>)>,
        params: Seq<Seq<char>>,
    ) -> Result<(PipelineModel, Sql), PlanError<Seq<char>>> {
        arbitrary()
    }

    /// The condition that keeps a row.
    fn condition(&self, ctx: &mut FilterCtx<'_>, params: &[String]) -> (r: Result<
        SqlExpr,
        PlanError,
    >)
        requires
            old(ctx).pipeline.wf(),
        ensures
            *final(final(ctx).pipeline) == *final(old(ctx).pipeline),
            final(ctx).columns == old(ctx).columns,
            match r {
                Ok(e) => final(ctx).pipeline.wf() && (columns_sound(fields(old(ctx).columns@))
                    ==> e.model().sound()) && self.kept(
                    old(ctx).pipeline.model(),
                    fields(old(ctx).columns@),
                    views(params@),
                ) == Ok::<_, PlanError<Seq<char>>>((final(ctx).pipeline.model(), e.model())),
                Err(e) => self.kept(
                    old(ctx).pipeline.model(),
                    fields(old(ctx).columns@),
                    views(params@),
                ) == Err::<(PipelineModel, Sql), _>(e.model()),
            },
    ;
}

/// The columns that may hold an id, the likeliest first.
pub open spec fn id_candidates() -> Seq<Seq<char>> {
    seq!["id"@, "fid"@, "gid"@, "objectid"@]
}

/// Where the first column stands whose name is `name` in either case, `columns.len()` where
/// there is none.
pub open spec fn named_at(columns: Seq<(Seq<char>, Seq<char>)>, name: Seq<char>, from: int) -> int
    decreases columns.len() - from,
{
    if from >= columns.len() {
        columns.len() as int
    } else if lowered(columns[from].0) == lowered(name) {
        from
    } else {
        named_at(columns, name, from + 1)
    }
}

/// The column that holds the id: the first one named by the earliest candidate that names any.
pub open spec fn id_column(
    columns: Seq<(Seq<char>, Seq<char>)>,
    candidates: Seq<Seq<char>>,
) -> Option<int>
    decreases candidates.len(),
{
    if candidates.len() == 0 {
        None
    } else if named_at(columns, candidates[0], 0) < columns.len() {
        Some(named_at(columns, candidates[0], 0))
    } else {
        id_column(columns, candidates.skip(1))
    }
}

fn find_named(columns: &[(String, String)], name: &str) -> (r: usize)
    ensures
        r as int == named_at(fields(columns@), name@, 0),
        r <= columns@.len(),
{
    let ghost all = fields(columns@);
    let mut i: usize = 0;
    while i < columns.len()
        invariant
            i <= columns@.len(),
            all == fields(columns@),
            named_at(all, name@, 0) == named_at(all, name@, i as int),
        decreases columns@.len() - i,
    {
        assert(all[i as int] == (columns@[i as int].0@, columns@[i as int].1@));
        if same_ignoring_case(columns[i].0.as_str(), name) {
            return i;
        }
        i += 1;
    }
    i
}

fn find_id(columns: &[(String, String)]) -> (r: Option<usize>)
    ensures
        match r {
            Some(at) => at < columns@.len() && id_column(fields(columns@), id_candidates()) == Some(
                at as int,
            ),
            None => id_column(fields(columns@), id_candidates()) is None,
        },
{
    let candidates: Vec<&'static str> = vec!["id", "fid", "gid", "objectid"];
    let ghost all = fields(columns@);
    assert(views(candidates@) =~= id_candidates());
    assert(id_candidates().skip(0) =~= id_candidates());
    let mut i: usize = 0;
    while i < candidates.len()
        invariant
            i <= candidates@.len(),
            all == fields(columns@),
            views(candidates@) == id_candidates(),
            id_column(all, id_candidates()) == id_column(all, id_candidates().skip(i as int)),
        decreases candidates@.len() - i,
    {
        assert(id_candidates()[i as int] == candidates@[i as int]@);
        let at = find_named(columns, candidates[i]);
        if at < columns.len() {
            return Some(at);
        }
        assert(id_candidates().skip(i as int).skip(1) =~= id_candidates().skip(i as int + 1));
        i += 1;
    }
    None
}

/// A filter that every core grammar has, or one of which only the name is known.
#[derive(Debug, Clone, Copy)]
pub enum CoreFilter {
    Id,
    Prop,
    Type,
    Valid,
    Empty,
    Simple,
    Closed,
    Undefined(&'static str),
}

/// A function that tells something of the geometry.
pub open spec fn asks(function: Seq<char>, geometry: Seq<char>) -> Sql {
    Sql::Call(function, seq![Sql::Column(geometry)])
}

/// The name of the geometry's type.
pub open spec fn shape_of(geometry: Seq<char>) -> Sql {
    as_text(asks("ST_GeometryType"@, geometry))
}

/// The condition that `e` is the boolean that the one parameter writes.
pub open spec fn flagged(e: Sql, name: Seq<char>, params: Seq<Seq<char>>) -> Result<
    Sql,
    FilterError<Seq<char>>,
> {
    if params.len() != 1 {
        Err(FilterError::BadParams(name))
    } else {
        match boolean_of(params[0]) {
            Some(b) => Ok(Sql::Binary(Box::new(e), Infix::Equal, Box::new(Sql::Flag(b)))),
            None => Err(FilterError::NotABoolean(params[0])),
        }
    }
}

impl CoreFilter {
    /// The condition that the filter makes of the geometry column, the columns and its
    /// parameters.
    pub open spec fn holds(
        self,
        geometry: Seq<char>,
        columns: Seq<(Seq<char>, Seq<char>)>,
        params: Seq<Seq<char>>,
    ) -> Result<Sql, FilterError<Seq<char>>> {
        match self {
            CoreFilter::Id => match id_column(columns, id_candidates()) {
                Some(at) => compared(columns[at], params, "id"@),
                None => Err(FilterError::NoIdColumn),
            },
            CoreFilter::Prop => if params.len() == 0 {
                Err(FilterError::BadParams("prop"@))
            } else {
                match column_of(columns, params[0]) {
                    Some(column) => compared(column, params.skip(1), "prop"@),
                    None => Err(FilterError::UnknownColumn(params[0])),
                }
            },
            CoreFilter::Type => if params.len() != 1 {
                Err(FilterError::BadParams("type"@))
            } else {
                match geometry_type_of(params[0]) {
                    Some(name) => Ok(
                        Sql::Binary(
                            Box::new(shape_of(geometry)),
                            Infix::Equal,
                            Box::new(Sql::Text(name)),
                        ),
                    ),
                    None => Err(FilterError::UnknownGeometryType(params[0])),
                }
            },
            CoreFilter::Valid => flagged(asks("ST_IsValid"@, geometry), "valid"@, params),
            CoreFilter::Empty => flagged(asks("ST_IsEmpty"@, geometry), "empty"@, params),
            CoreFilter::Simple => flagged(asks("ST_IsSimple"@, geometry), "simple"@, params),
            CoreFilter::Closed => flagged(
                Sql::Case(
                    Box::new(
                        Sql::Among(
                            Box::new(shape_of(geometry)),
                            seq!["LINESTRING"@, "MULTILINESTRING"@],
                        ),
                    ),
                    Box::new(asks("ST_IsClosed"@, geometry)),
                ),
                "closed"@,
                params,
            ),
            CoreFilter::Undefined(name) => Err(FilterError::UnknownFilter(name@)),
        }
    }
}

fn predicate(function: &str, geometry: &str) -> (r: SqlExpr)
    ensures
        r.model() == asks(function@, geometry@),
        r.model().sound(),
{
    call1(function, column(geometry))
}

fn shape(geometry: &str) -> (r: SqlExpr)
    ensures
        r.model() == shape_of(geometry@),
        r.model().sound(),
{
    to_text(predicate("ST_GeometryType", geometry))
}

fn is_flag(e: SqlExpr, name: &str, params: &[String]) -> (r: Result<SqlExpr, FilterError>)
    requires
        e.model().sound(),
    ensures
        match (r, flagged(e.model(), name@, views(params@))) {
            (Ok(e), Ok(want)) => e.model() == want && e.model().sound(),
            (Err(e), Err(want)) => e.model() == want,
            _ => false,
        },
{
    if params.len() != 1 {
        return Err(FilterError::BadParams(name.to_owned()));
    }
    assert(views(params@)[0] == params@[0]@);
    match boolean(params[0].as_str()) {
        Ok(b) => Ok(infix(e, Infix::Equal, flag(b))),
        Err(e) => Err(e),
    }
}

impl CoreFilter {
    /// The condition that the filter makes of the geometry column, the columns and its
    /// parameters.
    pub fn build(&self, geometry: &str, columns: &[(String, String)], params: &[String]) -> (r:
        Result<SqlExpr, FilterError>)
        ensures
            match (r, self.holds(geometry@, fields(columns@), views(params@))) {
                (Ok(e), Ok(want)) => e.model() == want && (columns_sound(fields(columns@))
                    ==> e.model().sound()),
                (Err(e), Err(want)) => e.model() == want,
                _ => false,
            },
    {
        match self {
            CoreFilter::Id => match find_id(columns) {
                Some(at) => {
                    assert(fields(columns@)[at as int] == (
                        columns@[at as int].0@,
                        columns@[at as int].1@,
                    ));
                    compare(&columns[at], params, "id")
                },
                None => Err(FilterError::NoIdColumn),
            },
            CoreFilter::Prop => {
                if params.len() == 0 {
                    return Err(FilterError::BadParams("prop".to_owned()));
                }
                assert(views(params@)[0] == params@[0]@);
                match find_column(columns, params[0].as_str()) {
                    Some(held) => {
                        proof {
                            column_at_bounds(fields(columns@), params@[0]@, 0);
                        }
                        let rest = slice_subrange(params, 1, params.len());
                        assert(views(rest@) =~= views(params@).skip(1));
                        compare(held, rest, "prop")
                    },
                    None => Err(FilterError::UnknownColumn(params[0].clone())),
                }
            },
            CoreFilter::Type => {
                if params.len() != 1 {
                    return Err(FilterError::BadParams("type".to_owned()));
                }
                assert(views(params@)[0] == params@[0]@);
                match named_type(params[0].as_str()) {
                    Ok(name) => Ok(infix(shape(geometry), Infix::Equal, text(name))),
                    Err(e) => Err(e),
                }
            },
            CoreFilter::Valid => is_flag(predicate("ST_IsValid", geometry), "valid", params),
            CoreFilter::Empty => is_flag(predicate("ST_IsEmpty", geometry), "empty", params),
            CoreFilter::Simple => is_flag(predicate("ST_IsSimple", geometry), "simple", params),
            CoreFilter::Closed => {
                let types = vec!["LINESTRING".to_owned(), "MULTILINESTRING".to_owned()];
                assert(views(types@) =~= seq!["LINESTRING"@, "MULTILINESTRING"@]);
                let linear = among(shape(geometry), types);
                let closed = case(linear, predicate("ST_IsClosed", geometry));
                is_flag(closed, "closed", params)
            },
            CoreFilter::Undefined(name) => Err(FilterError::UnknownFilter((*name).to_owned())),
        }
    }
}

proof fn column_at_bounds(columns: Seq<(Seq<char>, Seq<char>)>, name: Seq<char>, from: int)
    requires
        0 <= from <= columns.len(),
    ensures
        from <= column_at(columns, name, from) <= columns.len(),
    decreases columns.len() - from,
{
    if from < columns.len() && columns[from].0 != name {
        column_at_bounds(columns, name, from + 1);
    }
}

impl FilterFn for CoreFilter {
    open spec fn kept(
        &self,
        p: PipelineModel,
        columns: Seq<(Seq<char>, Seq<char>)>,
        params: Seq<Seq<char>>,
    ) -> Result<(PipelineModel, Sql), PlanError<Seq<char>>> {
        match self.holds(p.geometry, columns, params) {
            Ok(e) => Ok((p, e)),
            Err(e) => Err(PlanError::Filter(e)),
        }
    }

    fn condition(&self, ctx: &mut FilterCtx<'_>, params: &[String]) -> Result<SqlExpr, PlanError> {
        match self.build(ctx.geometry(), ctx.columns, params) {
            Ok(e) => Ok(e),
            Err(e) => Err(PlanError::Filter(e)),
        }
    }
}

/// What a filter does, as a definition holds it.
pub struct FilterRule {
    pub rule: Box<dyn FilterFn>,
}

impl FilterRule {
    /// The rule of a core filter.
    pub fn of(filter: CoreFilter) -> (r: FilterRule)
        ensures
            forall|
                p: PipelineModel,
                columns: Seq<(Seq<char>, Seq<char>)>,
                params: Seq<Seq<char>>,
            | #[trigger]
                r.rule.kept(p, columns, params) == filter.kept(p, columns, params),
    {
        let r = FilterRule { rule: Box::new(filter) };
        assert forall|
            p: PipelineModel,
            columns: Seq<(Seq<char>, Seq<char>)>,
            params: Seq<Seq<char>>,
        | #[trigger] r.rule.kept(p, columns, params) == filter.kept(p, columns, params) by {}
        r
    }
}

impl CoreFilter {
    /// The core filter that goes by `name`.
    pub open spec fn spec_named(name: Seq<char>) -> Option<CoreFilter> {
        if name == "id"@ {
            Some(CoreFilter::Id)
        } else if name == "prop"@ {
            Some(CoreFilter::Prop)
        } else if name == "type"@ {
            Some(CoreFilter::Type)
        } else if name == "valid"@ {
            Some(CoreFilter::Valid)
        } else if name == "empty"@ {
            Some(CoreFilter::Empty)
        } else if name == "simple"@ {
            Some(CoreFilter::Simple)
        } else if name == "closed"@ {
            Some(CoreFilter::Closed)
        } else {
            None
        }
    }

    /// The core filter that goes by `name`.
    pub fn named(name: &str) -> (r: Option<CoreFilter>)
        ensures
            r == CoreFilter::spec_named(name@),
    {
        if same(name, "id") {
            Some(CoreFilter::Id)
        } else if same(name, "prop") {
            Some(CoreFilter::Prop)
        } else if same(name, "type") {
            Some(CoreFilter::Type)
        } else if same(name, "valid") {
            Some(CoreFilter::Valid)
        } else if same(name, "empty") {
            Some(CoreFilter::Empty)
        } else if same(name, "simple") {
            Some(CoreFilter::Simple)
        } else if same(name, "closed") {
            Some(CoreFilter::Closed)
        } else {
            None
        }
    }
}

/// `next` joined to the conditions before it.
pub open spec fn chained(combined: Option<Sql>, next: Sql) -> Sql {
    match combined {
        Some(before) => Sql::Binary(Box::new(before), Infix::And, Box::new(next)),
        None => next,
    }
}

fn chain(combined: Option<SqlExpr>, next: SqlExpr) -> (r: SqlExpr)
    ensures
        r.model() == chained(
            match combined {
                Some(before) => Some(before.model()),
                None => None,
            },
            next.model(),
        ),
        (combined matches Some(before) ==> before.model().sound()) && next.model().sound()
            ==> r.model().sound(),
{
    match combined {
        Some(before) => infix(before, Infix::And, next),
        None => next,
    }
}

/// The condition that core filters make together, after `combined`.
pub open spec fn core_conditions(
    segments: Seq<SegmentModel>,
    geometry: Seq<char>,
    columns: Seq<(Seq<char>, Seq<char>)>,
    combined: Option<Sql>,
) -> Result<Option<Sql>, FilterError<Seq<char>>>
    decreases segments.len(),
{
    if segments.len() == 0 {
        Ok(combined)
    } else {
        match CoreFilter::spec_named(segments[0].name) {
            None => Err(FilterError::UnknownFilter(segments[0].name)),
            Some(filter) => match filter.holds(geometry, columns, segments[0].params) {
                Err(e) => Err(e),
                Ok(next) => core_conditions(
                    segments.skip(1),
                    geometry,
                    columns,
                    Some(chained(combined, next)),
                ),
            },
        }
    }
}

/// The condition that core filters make together: every one of them holds.
pub fn core_condition(segments: &[Segment], columns: &[(String, String)], geometry: &str) -> (r:
    Result<Option<SqlExpr>, FilterError>)
    ensures
        match (r, core_conditions(views(segments@), geometry@, fields(columns@), None)) {
            (Ok(None), Ok(None)) => true,
            (Ok(Some(e)), Ok(Some(want))) => e.model() == want && (columns_sound(fields(columns@))
                ==> e.model().sound()),
            (Err(e), Err(want)) => e.model() == want,
            _ => false,
        },
{
    let ghost all = views(segments@);
    let mut combined: Option<SqlExpr> = None;
    let mut i: usize = 0;
    assert(all.skip(0) =~= all);
    while i < segments.len()
        invariant
            i <= segments@.len(),
            all == views(segments@),
            columns_sound(fields(columns@)) ==> (combined matches Some(e) ==> e.model().sound()),
            core_conditions(all, geometry@, fields(columns@), None) == core_conditions(
                all.skip(i as int),
                geometry@,
                fields(columns@),
                match combined {
                    Some(e) => Some(e.model()),
                    None => None,
                },
            ),
        decreases segments@.len() - i,
    {
        let segment = &segments[i];
        assert(all.skip(i as int)[0] == segment@);
        assert(all.skip(i as int).skip(1) =~= all.skip(i as int + 1));
        let filter = match CoreFilter::named(segment.name.as_str()) {
            Some(filter) => filter,
            None => {
                return Err(FilterError::UnknownFilter(segment.name.clone()));
            },
        };
        let next = match filter.build(geometry, columns, segment.params.as_slice()) {
            Ok(next) => next,
            Err(e) => {
                return Err(e);
            },
        };
        combined = Some(chain(combined, next));
        i += 1;
    }
    Ok(combined)
}

/// A filter to register.
pub struct FilterDef {
    pub name: &'static str,
    pub short: &'static str,
    pub shapes: Vec<Vec<Param>>,
    pub condition: FilterRule,
}

/// A filter to register.
pub fn filter(
    name: &'static str,
    short: &'static str,
    shapes: Vec<Vec<Param>>,
    condition: FilterRule,
) -> (r: FilterDef)
    ensures
        r == (FilterDef { name, short, shapes, condition }),
{
    FilterDef { name, short, shapes, condition }
}

impl FilterDef {
    /// Whether the filter answers to `name`.
    pub fn matches(&self, name: &str) -> (r: bool)
        ensures
            r == answers(self.name@, self.short@, name@),
    {
        answers_to(self.name, self.short, name)
    }

    /// The canonical name.
    pub fn canonical(&self) -> (r: &'static str)
        ensures
            r@ == self.name@,
    {
        self.name
    }

    /// Whether so many parameters are taken.
    pub fn accepts(&self, params: usize) -> (r: bool)
        ensures
            r == takes(views(self.shapes@), params as nat),
    {
        find_shape(&self.shapes, params) < self.shapes.len()
    }
}

/// The pipeline and the condition that the filters of a grammar make together, after `combined`.
pub open spec fn conditions(
    filters: Seq<SegmentDef>,
    p: PipelineModel,
    columns: Seq<(Seq<char>, Seq<char>)>,
    segments: Seq<SegmentModel>,
    combined: Option<Sql>,
) -> Result<(PipelineModel, Option<Sql>), PlanError<Seq<char>>>
    decreases segments.len(),
{
    if segments.len() == 0 {
        Ok((p, combined))
    } else {
        let at = filter_at(filters, segments[0].name, 0);
        if at >= filters.len() {
            Err(PlanError::Filter(FilterError::UnknownFilter(segments[0].name)))
        } else {
            match filters[at].condition.rule.kept(p, columns, segments[0].params) {
                Err(e) => Err(e),
                Ok((next, e)) => conditions(
                    filters,
                    next,
                    columns,
                    segments.skip(1),
                    Some(chained(combined, e)),
                ),
            }
        }
    }
}

/// The condition that the filters of a request make together, by what the grammar says of each:
/// every one of them holds.
pub fn condition(grammar: &Grammar, ctx: &mut FilterCtx<'_>, filters: &[Segment]) -> (r: Result<
    Option<SqlExpr>,
    PlanError,
>)
    requires
        old(ctx).pipeline.wf(),
    ensures
        *final(final(ctx).pipeline) == *final(old(ctx).pipeline),
        final(ctx).columns == old(ctx).columns,
        match (
            r,
            conditions(
                grammar.filters@,
                old(ctx).pipeline.model(),
                fields(old(ctx).columns@),
                views(filters@),
                None,
            ),
        ) {
            (Ok(e), Ok((p, want))) => {
                &&& final(ctx).pipeline.wf()
                &&& final(ctx).pipeline.model() == p
                &&& match (e, want) {
                    (Some(e), Some(want)) => e.model() == want && (columns_sound(
                        fields(old(ctx).columns@),
                    ) ==> e.model().sound()),
                    (None, None) => true,
                    _ => false,
                }
            },
            (Err(e), Err(want)) => e.model() == want,
            _ => false,
        },
{
    let ghost all = views(filters@);
    let ghost columns = fields(ctx.columns@);
    let ghost start = ctx.pipeline.model();
    let mut combined: Option<SqlExpr> = None;
    let mut i: usize = 0;
    assert(all.skip(0) =~= all);
    while i < filters.len()
        invariant
            i <= filters@.len(),
            all == views(filters@),
            columns == fields(ctx.columns@),
            start == old(ctx).pipeline.model(),
            *final(ctx.pipeline) == *final(old(ctx).pipeline),
            ctx.columns == old(ctx).columns,
            ctx.pipeline.wf(),
            columns_sound(columns) ==> (combined matches Some(e) ==> e.model().sound()),
            conditions(grammar.filters@, start, columns, all, None) == conditions(
                grammar.filters@,
                ctx.pipeline.model(),
                columns,
                all.skip(i as int),
                match combined {
                    Some(e) => Some(e.model()),
                    None => None,
                },
            ),
        decreases filters@.len() - i,
    {
        let held = &filters[i];
        assert(all.skip(i as int)[0] == held@);
        assert(all.skip(i as int).skip(1) =~= all.skip(i as int + 1));
        let declared = match grammar.filter_for(held.name.as_str()) {
            Some(declared) => declared,
            None => {
                return Err(PlanError::Filter(FilterError::UnknownFilter(held.name.clone())));
            },
        };
        let next = match declared.condition.rule.condition(ctx, held.params.as_slice()) {
            Ok(next) => next,
            Err(e) => {
                return Err(e);
            },
        };
        combined = Some(chain(combined, next));
        i += 1;
    }
    Ok(combined)
}

/// The condition that core filters make can be written out: where the type of a column stands in a
/// template of it, it asks for no arguments of its own.
pub open spec fn core_writable(
    segments: Seq<SegmentModel>,
    geometry: Seq<char>,
    columns: Seq<(Seq<char>, Seq<char>)>,
) -> bool {
    columns_sound(columns) || (core_conditions(segments, geometry, columns, None) matches Ok(
        Some(e),
    ) ==> e.sound())
}

/// The condition that the filters of a grammar make can be written out.
pub open spec fn writable(
    filters: Seq<SegmentDef>,
    p: PipelineModel,
    columns: Seq<(Seq<char>, Seq<char>)>,
    segments: Seq<SegmentModel>,
) -> bool {
    columns_sound(columns) || (conditions(filters, p, columns, segments, None) matches Ok(
        (_, Some(e)),
    ) ==> e.sound())
}

/// A name means the same filter in `filters` as among the core filters, or none in both.
pub open spec fn means_the_core(filters: Seq<SegmentDef>, name: Seq<char>) -> bool {
    let at = filter_at(filters, name, 0);
    match CoreFilter::spec_named(name) {
        Some(filter) => at < filters.len() && forall|
            p: PipelineModel,
            columns: Seq<(Seq<char>, Seq<char>)>,
            params: Seq<Seq<char>>,
        | #[trigger]
            filters[at].condition.rule.kept(p, columns, params) == (match filter.holds(
                p.geometry,
                columns,
                params,
            ) {
                Ok(e) => Ok((p, e)),
                Err(e) => Err(PlanError::Filter(e)),
            }),
        None => at >= filters.len(),
    }
}

/// Where each filter that a request names means the core one, the filters make the condition that
/// the core filters make, and no side table, whatever else the grammar has.
pub proof fn named_filters_are_core(
    filters: Seq<SegmentDef>,
    p: PipelineModel,
    columns: Seq<(Seq<char>, Seq<char>)>,
    segments: Seq<SegmentModel>,
    combined: Option<Sql>,
)
    requires
        forall|i: int|
            0 <= i < segments.len() ==> means_the_core(filters, (#[trigger] segments[i]).name),
    ensures
        conditions(filters, p, columns, segments, combined) == (match core_conditions(
            segments,
            p.geometry,
            columns,
            combined,
        ) {
            Ok(e) => Ok((p, e)),
            Err(e) => Err(PlanError::Filter(e)),
        }),
    decreases segments.len(),
{
    if segments.len() > 0 {
        let name = segments[0].name;
        assert(means_the_core(filters, name));
        match CoreFilter::spec_named(name) {
            Some(filter) => match filter.holds(p.geometry, columns, segments[0].params) {
                Ok(e) => {
                    let rest = segments.skip(1);
                    assert forall|i: int| 0 <= i < rest.len() implies means_the_core(
                        filters,
                        (#[trigger] rest[i]).name,
                    ) by {
                        assert(rest[i] == segments[i + 1]);
                    }
                    named_filters_are_core(
                        filters,
                        p,
                        columns,
                        rest,
                        Some(chained(combined, e)),
                    );
                },
                Err(e) => {},
            },
            None => {},
        }
    }
}

/// In the built-in grammar every name means the core filter.
pub proof fn built_in_filters_are_core(filters: Seq<SegmentDef>, name: Seq<char>)
    requires
        are_core(filters, 7),
    ensures
        means_the_core(filters, name),
{
    core_filter_is_found(filters, name);
    filter_at_bounds(filters, name, 0);
}

proof fn core_filter_is_found(filters: Seq<SegmentDef>, name: Seq<char>)
    requires
        are_core(filters, 7),
    ensures
        (filter_at(filters, name, 0) < 7) == (CoreFilter::spec_named(name) is Some),
        filter_at(filters, name, 0) < 7 ==> forall|
            p: PipelineModel,
            columns: Seq<(Seq<char>, Seq<char>)>,
            params: Seq<Seq<char>>,
        | #[trigger]
            filters[filter_at(filters, name, 0)].condition.rule.kept(p, columns, params)
                == CoreFilter::spec_named(name)->0.kept(p, columns, params),
{
    reveal_strlit("");
    filter_at_bounds(filters, name, 0);
    let at = filter_at(filters, name, 0);
    let all = core_filters();
    if at < 7 {
        assert(is_filter(filters[at], all[at].0, ""@, all[at].1));
        assert(all[at].0 == name);
    } else {
        assert forall|i: int| 0 <= i < 7 implies (#[trigger] all[i]).0 != name by {
            assert(is_filter(filters[i], all[i].0, ""@, all[i].1));
        }
        assert(all[0].0 == "id"@ && all[1].0 == "prop"@ && all[2].0 == "type"@ && all[3].0
            == "valid"@ && all[4].0 == "empty"@ && all[5].0 == "simple"@ && all[6].0 == "closed"@);
    }
}

} // verus!
