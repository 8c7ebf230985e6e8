//! What a request may say: the filters, actions and outputs that are registered, and the kinds
//! of parameters that they take.

use std::sync::Arc;
use vstd::prelude::*;

use crate::ast::{each_sound, says, Select, Sql, SqlExpr};
use crate::backend::{DialectDef, UnknownOp};
use crate::filters::{CoreFilter, FilterDef, FilterError, FilterFn, FilterRule};
use crate::formats::{geojson, has_extension, is_geojson, OutputDef};
use crate::sql::{Pipeline, PipelineModel, PlanError};
use crate::text::{
    chars_of, decimal, decimal_chars, holds, is_digit, is_digit_spec, is_letter, is_letter_spec,
    joined, lowered, occurs, quote, quoted, raised, same, string_of, to_lower, to_upper, views,
};
use crate::url::{Segment, SegmentModel};

verus! {

/// What a parameter of a filter or an option must be.
#[derive(Debug, Clone, Copy, PartialEq, Eq, Structural)]
pub enum Param {
    Column,
    Operator,
    Value,
    Token,
    Boolean,
    GeometryType,
}

impl Param {
    pub open spec fn spec_label(self) -> Seq<char> {
        match self {
            Param::Column => "a column name"@,
            Param::Operator => "an operator"@,
            Param::Value => "a value"@,
            Param::Token => "letters, digits, dot, dash or underscore"@,
            Param::Boolean => "true or false"@,
            Param::GeometryType => "a geometry type"@,
        }
    }

    /// What the parameter must be, in words.
    pub fn label(self) -> (r: &'static str)
        ensures
            r@ == self.spec_label(),
    {
        match self {
            Param::Column => "a column name",
            Param::Operator => "an operator",
            Param::Value => "a value",
            Param::Token => "letters, digits, dot, dash or underscore",
            Param::Boolean => "true or false",
            Param::GeometryType => "a geometry type",
        }
    }
}

/// A parameter that is not what it must be.
#[derive(Debug, PartialEq)]
pub struct ParamError<S = String> {
    pub at: usize,
    pub expected: Param,
    pub got: S,
}

impl ParamError {
    pub open spec fn model(self) -> ParamError<Seq<char>> {
        ParamError { at: self.at, expected: self.expected, got: self.got@ }
    }

    /// What went wrong, in words.
    pub fn message(&self) -> (r: String)
        ensures
            r@ == param_message(self.model()),
    {
        let place = string_of(decimal_chars(self.at as u128 + 1).as_slice());
        let counted = joined("parameter ", place.as_str());
        let expected = joined(joined(counted.as_str(), " expected ").as_str(), self.expected.label());
        joined(joined(expected.as_str(), ", got ").as_str(), quote(self.got.as_str()).as_str())
    }
}

/// What went wrong, in words. Parameters are counted from one.
pub open spec fn param_message(e: ParamError<Seq<char>>) -> Seq<char> {
    "parameter "@ + decimal(e.at as nat + 1) + " expected "@ + e.expected.spec_label() + ", got "@
        + quoted(e.got)
}

/// A kind of parameter that can be read from its text.
pub trait FromParam: Sized {
    /// The kind of the parameter.
    spec fn spec_kind() -> Param;

    /// `raw` can be read.
    spec fn reads(raw: Seq<char>) -> bool;

    /// The kind of the parameter.
    fn kind() -> (r: Param)
        ensures
            r == Self::spec_kind(),
    ;

    /// Reads a parameter.
    fn from_param(raw: &str) -> (r: Option<Self>)
        ensures
            r is Some <==> Self::reads(raw@),
    ;
}

/// The name of a column.
pub struct Column(pub String);

/// A value to compare with.
pub struct Value(pub String);

/// A word of letters, digits, dots, dashes and underscores.
pub struct Token(pub String);

/// The name of an operator.
pub struct Operator(pub String);

/// True or false.
pub struct Boolean(pub bool);

/// The name of a geometry type, in upper case.
pub struct GeometryType(pub &'static str);

impl FromParam for Column {
    open spec fn spec_kind() -> Param {
        Param::Column
    }

    open spec fn reads(raw: Seq<char>) -> bool {
        raw.len() > 0
    }

    fn kind() -> Param {
        Param::Column
    }

    fn from_param(raw: &str) -> (r: Option<Self>)
        ensures
            r matches Some(column) ==> column.0@ == raw@,
    {
        if raw.is_empty() {
            None
        } else {
            Some(Column(raw.to_owned()))
        }
    }
}

impl FromParam for Value {
    open spec fn spec_kind() -> Param {
        Param::Value
    }

    open spec fn reads(raw: Seq<char>) -> bool {
        raw.len() > 0
    }

    fn kind() -> Param {
        Param::Value
    }

    fn from_param(raw: &str) -> (r: Option<Self>)
        ensures
            r matches Some(value) ==> value.0@ == raw@,
    {
        if raw.is_empty() {
            None
        } else {
            Some(Value(raw.to_owned()))
        }
    }
}

/// `c` may stand in a token.
pub open spec fn is_token_char(c: char) -> bool {
    is_letter_spec(c) || is_digit_spec(c) || c == '_' || c == '-' || c == '.'
}

/// `s` is a token.
pub open spec fn is_token(s: Seq<char>) -> bool {
    s.len() > 0 && forall|i: int| 0 <= i < s.len() ==> is_token_char(#[trigger] s[i])
}

/// Whether `s` is a token.
pub fn token(s: &str) -> (r: bool)
    ensures
        r == is_token(s@),
{
    let v = chars_of(s);
    let mut i: usize = 0;
    while i < v.len()
        invariant
            i <= v@.len(),
            v@ == s@,
            forall|j: int| 0 <= j < i ==> is_token_char(#[trigger] v@[j]),
        decreases v@.len() - i,
    {
        let c = v[i];
        if !(is_letter(c) || is_digit(c) || c == '_' || c == '-' || c == '.') {
            return false;
        }
        i += 1;
    }
    v.len() > 0
}

impl FromParam for Token {
    open spec fn spec_kind() -> Param {
        Param::Token
    }

    open spec fn reads(raw: Seq<char>) -> bool {
        is_token(raw)
    }

    fn kind() -> Param {
        Param::Token
    }

    fn from_param(raw: &str) -> (r: Option<Self>)
        ensures
            r matches Some(token) ==> token.0@ == raw@,
    {
        if token(raw) {
            Some(Token(raw.to_owned()))
        } else {
            None
        }
    }
}

impl FromParam for Operator {
    open spec fn spec_kind() -> Param {
        Param::Operator
    }

    open spec fn reads(raw: Seq<char>) -> bool {
        raw.len() > 0
    }

    fn kind() -> Param {
        Param::Operator
    }

    fn from_param(raw: &str) -> (r: Option<Self>)
        ensures
            r matches Some(operator) ==> operator.0@ == raw@,
    {
        if raw.is_empty() {
            None
        } else {
            Some(Operator(raw.to_owned()))
        }
    }
}

/// The boolean that `raw` writes: `true` or `1`, `false` or `0`, in either case.
pub open spec fn boolean_of(raw: Seq<char>) -> Option<bool> {
    let lower = lowered(raw);
    if lower == "true"@ || lower == "1"@ {
        Some(true)
    } else if lower == "false"@ || lower == "0"@ {
        Some(false)
    } else {
        None
    }
}

impl FromParam for Boolean {
    open spec fn spec_kind() -> Param {
        Param::Boolean
    }

    open spec fn reads(raw: Seq<char>) -> bool {
        boolean_of(raw) is Some
    }

    fn kind() -> Param {
        Param::Boolean
    }

    fn from_param(raw: &str) -> (r: Option<Self>)
        ensures
            match r {
                Some(b) => boolean_of(raw@) == Some(b.0),
                None => boolean_of(raw@) is None,
            },
    {
        let lower = to_lower(raw);
        if same(lower.as_str(), "true") || same(lower.as_str(), "1") {
            Some(Boolean(true))
        } else if same(lower.as_str(), "false") || same(lower.as_str(), "0") {
            Some(Boolean(false))
        } else {
            None
        }
    }
}

/// The names of the geometry types.
pub open spec fn geometry_types() -> Seq<Seq<char>> {
    seq![
        "POINT"@,
        "LINESTRING"@,
        "POLYGON"@,
        "MULTIPOINT"@,
        "MULTILINESTRING"@,
        "MULTIPOLYGON"@,
        "GEOMETRYCOLLECTION"@,
    ]
}

/// The names of the geometry types.
pub fn geometry_type_names() -> (r: Vec<&'static str>)
    ensures
        views(r@) == geometry_types(),
{
    let r: Vec<&'static str> = vec![
        "POINT",
        "LINESTRING",
        "POLYGON",
        "MULTIPOINT",
        "MULTILINESTRING",
        "MULTIPOLYGON",
        "GEOMETRYCOLLECTION",
    ];
    assert(views(r@) =~= geometry_types());
    r
}

/// The geometry type that `raw` names, in either case.
pub open spec fn geometry_type_of(raw: Seq<char>) -> Option<Seq<char>> {
    if geometry_types().contains(raised(raw)) {
        Some(raised(raw))
    } else {
        None
    }
}

impl FromParam for GeometryType {
    open spec fn spec_kind() -> Param {
        Param::GeometryType
    }

    open spec fn reads(raw: Seq<char>) -> bool {
        geometry_type_of(raw) is Some
    }

    fn kind() -> Param {
        Param::GeometryType
    }

    fn from_param(raw: &str) -> (r: Option<Self>)
        ensures
            match r {
                Some(t) => geometry_type_of(raw@) == Some(t.0@),
                None => geometry_type_of(raw@) is None,
            },
    {
        let wanted = to_upper(raw);
        let known = geometry_type_names();
        let mut i: usize = 0;
        while i < known.len()
            invariant
                i <= known@.len(),
                views(known@) == geometry_types(),
                wanted@ == raised(raw@),
                forall|j: int| 0 <= j < i ==> #[trigger] views(known@)[j] != wanted@,
            decreases known@.len() - i,
        {
            assert(views(known@)[i as int] == known@[i as int]@);
            if same(known[i], wanted.as_str()) {
                return Some(GeometryType(known[i]));
            }
            i += 1;
        }
        None
    }
}

impl Param {
    /// `raw` is what the parameter must be.
    pub open spec fn fits(self, raw: Seq<char>) -> bool {
        match self {
            Param::Column => Column::reads(raw),
            Param::Operator => Operator::reads(raw),
            Param::Value => Value::reads(raw),
            Param::Token => Token::reads(raw),
            Param::Boolean => Boolean::reads(raw),
            Param::GeometryType => GeometryType::reads(raw),
        }
    }

    /// Whether `raw` is what the parameter must be.
    pub fn accepts(self, raw: &str) -> (r: bool)
        ensures
            r == self.fits(raw@),
    {
        match self {
            Param::Column => Column::from_param(raw).is_some(),
            Param::Operator => Operator::from_param(raw).is_some(),
            Param::Value => Value::from_param(raw).is_some(),
            Param::Token => Token::from_param(raw).is_some(),
            Param::Boolean => Boolean::from_param(raw).is_some(),
            Param::GeometryType => GeometryType::from_param(raw).is_some(),
        }
    }
}

// Names and shapes.

/// A definition called `name`, or `short` where that is anything, answers to `asked`.
pub open spec fn answers(name: Seq<char>, short: Seq<char>, asked: Seq<char>) -> bool {
    name == asked || (short.len() > 0 && short == asked)
}

/// Whether a definition called `name`, or `short` where that is anything, answers to `asked`.
pub fn answers_to(name: &str, short: &str, asked: &str) -> (r: bool)
    ensures
        r == answers(name@, short@, asked@),
{
    same(name, asked) || (!short.is_empty() && same(short, asked))
}

/// One of the shapes has `n` parameters.
pub open spec fn takes(shapes: Seq<Seq<Param>>, n: nat) -> bool {
    exists|i: int| 0 <= i < shapes.len() && (#[trigger] shapes[i]).len() == n
}

/// Where the first shape of `n` parameters stands, `shapes.len()` where there is none.
pub open spec fn shape_at(shapes: Seq<Seq<Param>>, n: nat, from: int) -> int
    decreases shapes.len() - from,
{
    if from >= shapes.len() {
        shapes.len() as int
    } else if shapes[from].len() == n {
        from
    } else {
        shape_at(shapes, n, from + 1)
    }
}

pub proof fn shape_at_takes(shapes: Seq<Seq<Param>>, n: nat, from: int)
    requires
        0 <= from <= shapes.len(),
    ensures
        from <= shape_at(shapes, n, from) <= shapes.len(),
        shape_at(shapes, n, from) < shapes.len() ==> shapes[shape_at(shapes, n, from)].len() == n,
        forall|i: int|
            from <= i < shape_at(shapes, n, from) ==> (#[trigger] shapes[i]).len() != n,
    decreases shapes.len() - from,
{
    if from < shapes.len() && shapes[from].len() != n {
        shape_at_takes(shapes, n, from + 1);
    }
}

/// Where the first shape of `n` parameters stands, the number of shapes where there is none.
pub fn find_shape(shapes: &Vec<Vec<Param>>, n: usize) -> (r: usize)
    ensures
        r as int == shape_at(views(shapes@), n as nat, 0),
        r <= shapes@.len(),
        r < shapes@.len() <==> takes(views(shapes@), n as nat),
{
    let ghost all = views(shapes@);
    proof {
        shape_at_takes(all, n as nat, 0);
    }
    let mut i: usize = 0;
    while i < shapes.len()
        invariant
            i <= shapes@.len(),
            all == views(shapes@),
            shape_at(all, n as nat, 0) == shape_at(all, n as nat, i as int),
        decreases shapes@.len() - i,
    {
        assert(all[i as int] == shapes@[i as int]@);
        if shapes[i].len() == n {
            return i;
        }
        i += 1;
    }
    i
}

fn copy_shape(shape: &Vec<Param>) -> (r: Vec<Param>)
    ensures
        r@ == shape@,
{
    let mut out: Vec<Param> = Vec::new();
    let mut i: usize = 0;
    while i < shape.len()
        invariant
            i <= shape@.len(),
            out@ == shape@.take(i as int),
        decreases shape@.len() - i,
    {
        out.push(shape[i]);
        i += 1;
        assert(shape@.take(i as int) =~= shape@.take(i as int - 1).push(shape@[i as int - 1]));
    }
    assert(shape@.take(i as int) =~= shape@);
    out
}

/// An option of an action.
#[derive(Debug)]
pub struct Opt {
    pub name: &'static str,
    pub short: &'static str,
    pub shapes: Vec<Vec<Param>>,
}

/// What an option is.
pub struct OptModel {
    pub name: Seq<char>,
    pub short: Seq<char>,
    pub shapes: Seq<Seq<Param>>,
}

impl View for Opt {
    type V = OptModel;

    open spec fn view(&self) -> OptModel {
        OptModel { name: self.name@, short: self.short@, shapes: views(self.shapes@) }
    }
}

/// An option.
pub fn opt(name: &'static str, short: &'static str, shapes: Vec<Vec<Param>>) -> (r: Opt)
    ensures
        r@ == (OptModel { name: name@, short: short@, shapes: views(shapes@) }),
{
    Opt { name, short, shapes }
}

/// An option that takes no parameters.
pub fn flag(name: &'static str, short: &'static str) -> (r: Opt)
    ensures
        r@ == (OptModel { name: name@, short: short@, shapes: seq![Seq::<Param>::empty()] }),
{
    let none: Vec<Param> = Vec::new();
    let shapes: Vec<Vec<Param>> = vec![none];
    assert(none@ =~= Seq::<Param>::empty());
    assert(views(shapes@) =~= seq![Seq::<Param>::empty()]);
    Opt { name, short, shapes }
}

/// What is declared under a canonical name, for some numbers of parameters.
pub trait Declared {
    spec fn declared_name(&self) -> Seq<char>;

    spec fn declared_shapes(&self) -> Seq<Seq<Param>>;

    /// The canonical name.
    fn canonical(&self) -> (r: &'static str)
        ensures
            r@ == self.declared_name(),
    ;

    /// Whether so many parameters are taken.
    fn accepts(&self, params: usize) -> (r: bool)
        ensures
            r == takes(self.declared_shapes(), params as nat),
    ;
}

impl Opt {
    /// Whether the option answers to `name`.
    pub fn matches(&self, name: &str) -> (r: bool)
        ensures
            r == answers(self@.name, self@.short, name@),
    {
        answers_to(self.name, self.short, name)
    }

    /// The kinds of `params` parameters, if the option takes that many.
    pub fn shape_for(&self, params: usize) -> (r: Option<Vec<Param>>)
        ensures
            r is Some <==> takes(self@.shapes, params as nat),
            r matches Some(shape) ==> shape@ == self@.shapes[shape_at(
                self@.shapes,
                params as nat,
                0,
            )] && shape@.len() == params,
    {
        let at = find_shape(&self.shapes, params);
        if at < self.shapes.len() {
            proof {
                shape_at_takes(views(self.shapes@), params as nat, 0);
            }
            Some(copy_shape(&self.shapes[at]))
        } else {
            None
        }
    }
}

impl Declared for Opt {
    open spec fn declared_name(&self) -> Seq<char> {
        self@.name
    }

    open spec fn declared_shapes(&self) -> Seq<Seq<Param>> {
        self@.shapes
    }

    fn canonical(&self) -> &'static str {
        self.name
    }

    fn accepts(&self, params: usize) -> bool {
        find_shape(&self.shapes, params) < self.shapes.len()
    }
}

// Stages.

/// What an action works with: the pipeline, on which its steps go under its own name.
pub struct StageCtx<'a> {
    pub pipeline: &'a mut Pipeline,
    pub action: &'static str,
    pub tables: &'static str,
}

impl<'a> StageCtx<'a> {
    /// What the pipeline is.
    pub open spec fn state(self) -> PipelineModel {
        self.pipeline.model()
    }

    /// A stage whose steps and side tables go under the name of `action`.
    pub fn new(pipeline: &'a mut Pipeline, action: &'static str) -> (r: StageCtx<'a>)
        ensures
            *r.pipeline == *old(pipeline),
            *final(r.pipeline) == *final(pipeline),
            r.action@ == action@,
            r.tables@ == action@,
    {
        StageCtx { pipeline, action, tables: action }
    }

    /// A stage whose steps and side tables go under no name of its own.
    pub fn unnamed(pipeline: &'a mut Pipeline) -> (r: StageCtx<'a>)
        ensures
            *r.pipeline == *old(pipeline),
            *final(r.pipeline) == *final(pipeline),
            r.action@ == "step"@,
            r.tables@ == "x"@,
    {
        StageCtx { pipeline, action: "step", tables: "x" }
    }

    /// The dialect of the database.
    pub fn dialect(&self) -> (r: &DialectDef)
        ensures
            *r == self.state().backend.dialect,
    {
        self.pipeline.backend().dialect()
    }

    /// The operation `name` of the database applied to arguments.
    pub fn call(&self, name: &str, args: Vec<SqlExpr>) -> (r: Result<SqlExpr, UnknownOp>)
        requires
            self.state().backend.vocabulary.knows(name@) ==> args@.len()
                >= self.state().backend.vocabulary.op(name@).op.arity(),
        ensures
            r is Ok <==> self.state().backend.vocabulary.knows(name@),
            match r {
                Ok(e) => e.model() == self.state().backend.vocabulary.op(
                    name@,
                ).op.applied(says(args@)) && (each_sound(says(args@)) ==> e.model().sound()),
                Err(e) => e.0@ == name@,
            },
    {
        self.pipeline.backend().call(name, args)
    }

    /// Whether the database has an operation `name`.
    pub fn has(&self, name: &str) -> (r: bool)
        ensures
            r == self.state().backend.vocabulary.knows(name@),
    {
        self.pipeline.backend().has(name)
    }

    /// The name of the geometry column.
    pub fn geometry(&self) -> (r: &str)
        ensures
            r@ == self.state().geometry,
    {
        self.pipeline.geometry()
    }

    /// The geometry column.
    pub fn geom(&self) -> (r: SqlExpr)
        ensures
            r.model() == Sql::Column(self.state().geometry),
            r.model().sound(),
    {
        self.pipeline.geom()
    }

    /// The reference system of the geometry.
    pub fn crs(&self) -> (r: &str)
        ensures
            r@ == self.state().crs,
    {
        self.pipeline.crs()
    }

    /// The geometry in another reference system: as it is where that is the one it has.
    pub fn transform(&self, target: &str) -> (r: SqlExpr)
        ensures
            r.model() == self.state().moved(target@),
            r.model().sound(),
    {
        self.pipeline.transform(target)
    }

    /// What the side table `name` over the relation to read next is called.
    pub fn cte(&self, name: &str) -> (r: Option<String>)
        ensures
            match r {
                Some(alias) => self.state().table(self.tables@, name@) == Some(alias@),
                None => self.state().table(self.tables@, name@) is None,
            },
    {
        self.pipeline.cte_of(self.tables, name)
    }

    /// Has the side table `name` over the relation to read next, building it with `build` from
    /// that relation's name where there is none yet, and tells what it is called.
    pub fn cte_once<F: FnOnce(&str) -> Select>(&mut self, name: &str, build: F) -> (r: String)
        requires
            old(self).pipeline.wf(),
            old(self).pipeline.model().table(old(self).tables@, name@) is None ==> {
                &&& forall|from: &str|
                    from@ == old(self).pipeline.model().input ==> call_requires(build, (from,))
                &&& forall|from: &str, select: Select|
                    from@ == old(self).pipeline.model().input && #[trigger] call_ensures(
                        build,
                        (from,),
                        select,
                    ) ==> select.model().sound()
            },
        ensures
            *final(final(self).pipeline) == *final(old(self).pipeline),
            final(self).action == old(self).action,
            final(self).tables == old(self).tables,
            final(self).pipeline.wf(),
            match old(self).pipeline.model().table(old(self).tables@, name@) {
                Some(alias) => r@ == alias && final(self).pipeline.model() == old(
                    self,
                ).pipeline.model(),
                None => r@ == old(self).pipeline.model().next_table(old(self).tables@, name@) && exists|
                    from: &str,
                    select: Select,
                | #[trigger]
                    call_ensures(build, (from,), select) && from@ == old(
                        self,
                    ).pipeline.model().input && final(self).pipeline.model() == old(
                        self,
                    ).pipeline.model().tabled(old(self).tables@, name@, select.model()),
            },
    {
        self.pipeline.cte_once_for(self.tables, name, build)
    }

    /// The relation to read next.
    pub fn data(&self) -> (r: String)
        ensures
            r@ == self.state().input,
    {
        self.pipeline.input()
    }

    /// Declares `select` as the next step, which from then on is what is read.
    pub fn step(&mut self, select: Select)
        requires
            old(self).pipeline.wf(),
            select.model().sound(),
        ensures
            *final(final(self).pipeline) == *final(old(self).pipeline),
            final(self).action == old(self).action,
            final(self).tables == old(self).tables,
            final(self).pipeline.wf(),
            final(self).pipeline.model() == old(self).pipeline.model().stepped(
                old(self).action@,
                select.model(),
            ),
    {
        self.pipeline.step_for(self.action, select);
    }

    /// Declares a step with `geometry` in place of the geometry column.
    pub fn replace_geometry(&mut self, geometry: SqlExpr)
        requires
            old(self).pipeline.wf(),
            geometry.model().sound(),
        ensures
            *final(final(self).pipeline) == *final(old(self).pipeline),
            final(self).action == old(self).action,
            final(self).tables == old(self).tables,
            final(self).pipeline.wf(),
            final(self).pipeline.model() == old(self).pipeline.model().replaced(
                old(self).action@,
                geometry.model(),
            ),
    {
        self.pipeline.replace_geometry(self.action, geometry);
    }

    /// Says that the geometry is in `crs` from now on.
    pub fn set_crs(&mut self, crs: &str)
        requires
            old(self).pipeline.wf(),
        ensures
            *final(final(self).pipeline) == *final(old(self).pipeline),
            final(self).action == old(self).action,
            final(self).tables == old(self).tables,
            final(self).pipeline.wf(),
            final(self).pipeline.model() == (PipelineModel {
                crs: crs@,
                ..old(self).pipeline.model()
            }),
    {
        self.pipeline.set_crs(crs);
    }
}

/// Something that a request may ask to be done with its rows.
pub trait Action: Send + Sync {
    open spec fn spec_name(&self) -> Seq<char> {
        arbitrary()
    }

    open spec fn spec_short(&self) -> Seq<char> {
        arbitrary()
    }

    open spec fn spec_options(&self) -> Seq<OptModel> {
        arbitrary()
    }

    /// The pipeline after the action, whose steps go under `step` and side tables under `table`.
    open spec fn ran(
        &self,
        p: PipelineModel,
        step: Seq<char>,
        table: Seq<char>,
        segments: Seq<SegmentModel>,
    ) -> Result<PipelineModel, PlanError<Seq<char>>> {
        arbitrary()
    }

    /// The canonical name.
    fn name(&self) -> (r: &'static str)
        ensures
            r@ == self.spec_name(),
    ;

    /// The short name, or nothing.
    fn short(&self) -> (r: &'static str)
        ensures
            r@ == self.spec_short(),
    ;

    /// The options.
    fn options(&self) -> (r: Vec<Opt>)
        ensures
            views(r@) == self.spec_options(),
    ;

    /// Puts the action's steps on the pipeline.
    fn run(&self, ctx: &mut StageCtx<'_>, segments: &[Segment]) -> (r: Result<(), PlanError>)
        requires
            old(ctx).pipeline.wf(),
        ensures
            *final(final(ctx).pipeline) == *final(old(ctx).pipeline),
            final(ctx).action == old(ctx).action,
            final(ctx).tables == old(ctx).tables,
            match r {
                Ok(_) => final(ctx).pipeline.wf() && self.ran(
                    old(ctx).pipeline.model(),
                    old(ctx).action@,
                    old(ctx).tables@,
                    views(segments@),
                ) == Ok::<_, PlanError<Seq<char>>>(final(ctx).pipeline.model()),
                Err(e) => self.ran(
                    old(ctx).pipeline.model(),
                    old(ctx).action@,
                    old(ctx).tables@,
                    views(segments@),
                ) == Err::<PipelineModel, _>(e.model()),
            },
    ;
}

/// An action as a grammar holds it.
pub struct ActionDef {
    pub action: Box<dyn Action>,
}

impl ActionDef {
    /// Whether the action answers to `name`.
    pub fn matches(&self, name: &str) -> (r: bool)
        ensures
            r == answers(self.action.spec_name(), self.action.spec_short(), name@),
    {
        answers_to(self.action.name(), self.action.short(), name)
    }

    /// The canonical name.
    pub fn canonical(&self) -> (r: &'static str)
        ensures
            r@ == self.action.spec_name(),
    {
        self.action.name()
    }

    /// The first option that answers to `name`.
    pub fn option(&self, name: &str) -> (r: Option<Opt>)
        ensures
            match r {
                Some(o) => option_of(self.action.spec_options(), name@) == Some(o@),
                None => option_of(self.action.spec_options(), name@) is None,
            },
    {
        let mut all = self.action.options();
        let ghost model = views(all@);
        let mut i: usize = 0;
        while i < all.len()
            invariant
                i <= all@.len(),
                model == views(all@),
                model == self.action.spec_options(),
                option_at(model, name@, 0) == option_at(model, name@, i as int),
            decreases all@.len() - i,
        {
            assert(model[i as int] == all@[i as int]@);
            if all[i].matches(name) {
                return Some(all.swap_remove(i));
            }
            i += 1;
        }
        None
    }
}

/// Where the first option that answers to `name` stands, `options.len()` where there is none.
pub open spec fn option_at(options: Seq<OptModel>, name: Seq<char>, from: int) -> int
    decreases options.len() - from,
{
    if from >= options.len() {
        options.len() as int
    } else if answers(options[from].name, options[from].short, name) {
        from
    } else {
        option_at(options, name, from + 1)
    }
}

/// The first option that answers to `name`.
pub open spec fn option_of(options: Seq<OptModel>, name: Seq<char>) -> Option<OptModel> {
    let at = option_at(options, name, 0);
    if at < options.len() {
        Some(options[at])
    } else {
        None
    }
}

/// A filter as a grammar holds it.
pub struct SegmentDef {
    pub name: &'static str,
    pub short: &'static str,
    pub shapes: Vec<Vec<Param>>,
    pub condition: FilterRule,
}

impl SegmentDef {
    /// Whether the filter answers to `name`.
    pub fn matches(&self, name: &str) -> (r: bool)
        ensures
            r == answers(self.name@, self.short@, name@),
    {
        answers_to(self.name, self.short, name)
    }
}

impl Declared for SegmentDef {
    open spec fn declared_name(&self) -> Seq<char> {
        self.name@
    }

    open spec fn declared_shapes(&self) -> Seq<Seq<Param>> {
        views(self.shapes@)
    }

    fn canonical(&self) -> &'static str {
        self.name
    }

    fn accepts(&self, params: usize) -> bool {
        find_shape(&self.shapes, params) < self.shapes.len()
    }
}

/// What a request may say.
pub struct Grammar {
    pub filters: Vec<SegmentDef>,
    pub actions: Vec<ActionDef>,
    pub outputs: Vec<Arc<OutputDef>>,
}

impl Default for Grammar {
    /// Nothing at all.
    fn default() -> (r: Grammar)
        ensures
            r.filters@.len() == 0,
            r.actions@.len() == 0,
            r.outputs@.len() == 0,
    {
        Grammar { filters: Vec::new(), actions: Vec::new(), outputs: Vec::new() }
    }
}

/// Where the first filter that answers to `name` stands, `filters.len()` where there is none.
pub open spec fn filter_at(filters: Seq<SegmentDef>, name: Seq<char>, from: int) -> int
    decreases filters.len() - from,
{
    if from >= filters.len() {
        filters.len() as int
    } else if answers(filters[from].name@, filters[from].short@, name) {
        from
    } else {
        filter_at(filters, name, from + 1)
    }
}

/// Where the first action that answers to `name` stands, `actions.len()` where there is none.
pub open spec fn action_at(actions: Seq<ActionDef>, name: Seq<char>, from: int) -> int
    decreases actions.len() - from,
{
    if from >= actions.len() {
        actions.len() as int
    } else if answers(
        actions[from].action.spec_name(),
        actions[from].action.spec_short(),
        name,
    ) {
        from
    } else {
        action_at(actions, name, from + 1)
    }
}

pub proof fn filter_at_bounds(filters: Seq<SegmentDef>, name: Seq<char>, from: int)
    requires
        0 <= from <= filters.len(),
    ensures
        from <= filter_at(filters, name, from) <= filters.len(),
        filter_at(filters, name, from) < filters.len() ==> answers(
            filters[filter_at(filters, name, from)].name@,
            filters[filter_at(filters, name, from)].short@,
            name,
        ),
        forall|i: int|
            from <= i < filter_at(filters, name, from) ==> !answers(
                (#[trigger] filters[i]).name@,
                filters[i].short@,
                name,
            ),
    decreases filters.len() - from,
{
    if from < filters.len() && !answers(filters[from].name@, filters[from].short@, name) {
        filter_at_bounds(filters, name, from + 1);
    }
}

pub proof fn action_at_bounds(actions: Seq<ActionDef>, name: Seq<char>, from: int)
    requires
        0 <= from <= actions.len(),
    ensures
        from <= action_at(actions, name, from) <= actions.len(),
        action_at(actions, name, from) < actions.len() ==> answers(
            actions[action_at(actions, name, from)].action.spec_name(),
            actions[action_at(actions, name, from)].action.spec_short(),
            name,
        ),
        forall|i: int|
            from <= i < action_at(actions, name, from) ==> !answers(
                (#[trigger] actions[i]).action.spec_name(),
                actions[i].action.spec_short(),
                name,
            ),
    decreases actions.len() - from,
{
    if from < actions.len() && !answers(
        actions[from].action.spec_name(),
        actions[from].action.spec_short(),
        name,
    ) {
        action_at_bounds(actions, name, from + 1);
    }
}

/// A name that is kept for the encoding of the source.
pub open spec fn is_reserved(name: Seq<char>) -> bool {
    name == "enc"@ || name == "encoding"@
}

/// Whether a name is kept for the encoding of the source.
pub fn reserved(name: &str) -> (r: bool)
    ensures
        r == is_reserved(name@),
{
    same(name, "enc") || same(name, "encoding")
}

/// Why something cannot be registered.
#[derive(Debug, PartialEq)]
pub enum DeclarationFault<S = String> {
    /// A filter without a shape.
    NoShape,
    /// A filter that takes no parameters.
    EmptyShape,
    /// A name that no request can write.
    Unscannable(S),
    /// A short name that is the canonical one.
    ShortRepeatsName(S),
    /// A name that is kept for the encoding of the source.
    Reserved(S),
    /// A name that a filter has.
    FilterTaken(S),
    /// An action without options.
    NoOptions(S),
    /// An option without a shape.
    OptionWithoutShape(S),
    /// A name that another option of the action has.
    OptionTaken { option: S, earlier: S },
    /// An option with two shapes of as many parameters.
    SameArity(S),
    /// A name that an action has.
    ActionTaken(S),
    /// An output without an extension.
    NoExtension,
    /// An extension that no request can write.
    MisplacedDot(S),
    /// An extension with a letter in upper case.
    NotLowercase(S),
    /// An extension that the output has twice.
    RepeatedExtension(S),
    /// An extension that another output has, whose extensions are shown.
    Claimed { extension: S, by: S },
}

impl DeclarationFault {
    pub open spec fn model(self) -> DeclarationFault<Seq<char>> {
        match self {
            DeclarationFault::NoShape => DeclarationFault::NoShape,
            DeclarationFault::EmptyShape => DeclarationFault::EmptyShape,
            DeclarationFault::Unscannable(s) => DeclarationFault::Unscannable(s@),
            DeclarationFault::ShortRepeatsName(s) => DeclarationFault::ShortRepeatsName(s@),
            DeclarationFault::Reserved(s) => DeclarationFault::Reserved(s@),
            DeclarationFault::FilterTaken(s) => DeclarationFault::FilterTaken(s@),
            DeclarationFault::NoOptions(s) => DeclarationFault::NoOptions(s@),
            DeclarationFault::OptionWithoutShape(s) => DeclarationFault::OptionWithoutShape(s@),
            DeclarationFault::OptionTaken { option, earlier } => DeclarationFault::OptionTaken {
                option: option@,
                earlier: earlier@,
            },
            DeclarationFault::SameArity(s) => DeclarationFault::SameArity(s@),
            DeclarationFault::ActionTaken(s) => DeclarationFault::ActionTaken(s@),
            DeclarationFault::NoExtension => DeclarationFault::NoExtension,
            DeclarationFault::MisplacedDot(s) => DeclarationFault::MisplacedDot(s@),
            DeclarationFault::NotLowercase(s) => DeclarationFault::NotLowercase(s@),
            DeclarationFault::RepeatedExtension(s) => DeclarationFault::RepeatedExtension(s@),
            DeclarationFault::Claimed { extension, by } => DeclarationFault::Claimed {
                extension: extension@,
                by: by@,
            },
        }
    }
}

/// What is wrong, in words.
pub open spec fn fault_message(fault: DeclarationFault<Seq<char>>) -> Seq<char> {
    match fault {
        DeclarationFault::NoShape => "a filter needs at least one shape"@,
        DeclarationFault::EmptyShape => "a filter shape needs at least one parameter"@,
        DeclarationFault::Unscannable(name) => "name "@ + quoted(name)
            + " can never be parsed from a url"@,
        DeclarationFault::ShortRepeatsName(short) => "short name "@ + quoted(short)
            + " repeats the canonical name"@,
        DeclarationFault::Reserved(name) => "filter name "@ + quoted(name)
            + " is reserved for the source encoding"@,
        DeclarationFault::FilterTaken(name) => "filter "@ + quoted(name)
            + " is already registered"@,
        DeclarationFault::NoOptions(name) => "action "@ + quoted(name) + " has no options"@,
        DeclarationFault::OptionWithoutShape(name) => "option "@ + quoted(name)
            + " needs at least one shape"@,
        DeclarationFault::OptionTaken { option, earlier } => "option "@ + quoted(option)
            + " is already registered on this action as "@ + quoted(earlier),
        DeclarationFault::SameArity(name) => "option "@ + quoted(name)
            + " registered two shapes of the same arity"@,
        DeclarationFault::ActionTaken(name) => "action "@ + quoted(name)
            + " is already registered"@,
        DeclarationFault::NoExtension => "an output needs at least one extension"@,
        DeclarationFault::MisplacedDot(ext) => "extension "@ + quoted(ext)
            + " can never be parsed from a url"@,
        DeclarationFault::NotLowercase(ext) => "extension "@ + quoted(ext)
            + " must be lowercase; lookup lowercases the url, so an uppercase registration can never match"@,
        DeclarationFault::RepeatedExtension(ext) => "extension "@ + quoted(ext)
            + " is repeated in its own registration"@,
        DeclarationFault::Claimed { extension, by } => "extension "@ + quoted(extension)
            + " is already claimed by an output for "@ + by
            + "; an output sharing an extension must declare overrides() and gate itself with applies()"@,
    }
}

fn named_fault(what: &str, name: &str, fault: &str) -> (r: String)
    ensures
        r@ == what@ + quoted(name@) + fault@,
{
    joined(joined(what, quote(name).as_str()).as_str(), fault)
}

impl DeclarationFault {
    /// What is wrong, in words.
    pub fn message(&self) -> (r: String)
        ensures
            r@ == fault_message(self.model()),
    {
        match self {
            DeclarationFault::NoShape => "a filter needs at least one shape".to_owned(),
            DeclarationFault::EmptyShape => {
                "a filter shape needs at least one parameter".to_owned()
            },
            DeclarationFault::Unscannable(name) => named_fault(
                "name ",
                name.as_str(),
                " can never be parsed from a url",
            ),
            DeclarationFault::ShortRepeatsName(short) => named_fault(
                "short name ",
                short.as_str(),
                " repeats the canonical name",
            ),
            DeclarationFault::Reserved(name) => named_fault(
                "filter name ",
                name.as_str(),
                " is reserved for the source encoding",
            ),
            DeclarationFault::FilterTaken(name) => named_fault(
                "filter ",
                name.as_str(),
                " is already registered",
            ),
            DeclarationFault::NoOptions(name) => named_fault(
                "action ",
                name.as_str(),
                " has no options",
            ),
            DeclarationFault::OptionWithoutShape(name) => named_fault(
                "option ",
                name.as_str(),
                " needs at least one shape",
            ),
            DeclarationFault::OptionTaken { option, earlier } => {
                let taken = named_fault(
                    "option ",
                    option.as_str(),
                    " is already registered on this action as ",
                );
                joined(taken.as_str(), quote(earlier.as_str()).as_str())
            },
            DeclarationFault::SameArity(name) => named_fault(
                "option ",
                name.as_str(),
                " registered two shapes of the same arity",
            ),
            DeclarationFault::ActionTaken(name) => named_fault(
                "action ",
                name.as_str(),
                " is already registered",
            ),
            DeclarationFault::NoExtension => "an output needs at least one extension".to_owned(),
            DeclarationFault::MisplacedDot(ext) => named_fault(
                "extension ",
                ext.as_str(),
                " can never be parsed from a url",
            ),
            DeclarationFault::NotLowercase(ext) => named_fault(
                "extension ",
                ext.as_str(),
                " must be lowercase; lookup lowercases the url, so an uppercase registration can never match",
            ),
            DeclarationFault::RepeatedExtension(ext) => named_fault(
                "extension ",
                ext.as_str(),
                " is repeated in its own registration",
            ),
            DeclarationFault::Claimed { extension, by } => {
                let claimed = named_fault(
                    "extension ",
                    extension.as_str(),
                    " is already claimed by an output for ",
                );
                joined(
                    joined(claimed.as_str(), by.as_str()).as_str(),
                    "; an output sharing an extension must declare overrides() and gate itself with applies()",
                )
            },
        }
    }
}

/// A request can write `name`.
pub open spec fn scannable(name: Seq<char>) -> bool {
    name.len() > 0 && !occurs(name, ':') && !occurs(name, ',') && !occurs(name, '/')
}

fn is_scannable(name: &str) -> (r: bool)
    ensures
        r == scannable(name@),
{
    let v = chars_of(name);
    v.len() > 0 && !holds(v.as_slice(), ':') && !holds(v.as_slice(), ',') && !holds(
        v.as_slice(),
        '/',
    )
}

/// What is wrong with a canonical and a short name.
pub open spec fn pair_fault(name: Seq<char>, short: Seq<char>) -> Option<
    DeclarationFault<Seq<char>>,
> {
    if !scannable(name) {
        Some(DeclarationFault::Unscannable(name))
    } else if short.len() > 0 && !scannable(short) {
        Some(DeclarationFault::Unscannable(short))
    } else if short.len() > 0 && short == name {
        Some(DeclarationFault::ShortRepeatsName(short))
    } else {
        None
    }
}

fn check_pair(name: &str, short: &str) -> (r: Option<DeclarationFault>)
    ensures
        match (r, pair_fault(name@, short@)) {
            (Some(f), Some(want)) => f.model() == want,
            (None, None) => true,
            _ => false,
        },
{
    if !is_scannable(name) {
        return Some(DeclarationFault::Unscannable(name.to_owned()));
    }
    if !short.is_empty() {
        if !is_scannable(short) {
            return Some(DeclarationFault::Unscannable(short.to_owned()));
        }
        if same(short, name) {
            return Some(DeclarationFault::ShortRepeatsName(short.to_owned()));
        }
    }
    None
}

/// What is wrong with one of the names of a filter.
pub open spec fn filter_name_fault(filters: Seq<SegmentDef>, name: Seq<char>) -> Option<
    DeclarationFault<Seq<char>>,
> {
    if name.len() == 0 {
        None
    } else if is_reserved(name) {
        Some(DeclarationFault::Reserved(name))
    } else if filter_at(filters, name, 0) < filters.len() {
        Some(DeclarationFault::FilterTaken(name))
    } else {
        None
    }
}

/// What is wrong with a filter that is to be registered.
pub open spec fn filter_fault(
    filters: Seq<SegmentDef>,
    name: Seq<char>,
    short: Seq<char>,
    shapes: Seq<Seq<Param>>,
) -> Option<DeclarationFault<Seq<char>>> {
    if shapes.len() == 0 {
        Some(DeclarationFault::NoShape)
    } else if takes(shapes, 0) {
        Some(DeclarationFault::EmptyShape)
    } else if pair_fault(name, short) is Some {
        pair_fault(name, short)
    } else if filter_name_fault(filters, name) is Some {
        filter_name_fault(filters, name)
    } else {
        filter_name_fault(filters, short)
    }
}

/// Every name has one reading: no two filters answer to the same.
pub open spec fn filters_distinct(filters: Seq<SegmentDef>) -> bool {
    forall|i: int, j: int, name: Seq<char>|
        0 <= i < j < filters.len() ==> !(#[trigger] answers(
            filters[i].name@,
            filters[i].short@,
            name,
        ) && #[trigger] answers(filters[j].name@, filters[j].short@, name))
}

/// Every name has one reading: no two actions answer to the same.
pub open spec fn actions_distinct(actions: Seq<ActionDef>) -> bool {
    forall|i: int, j: int, name: Seq<char>|
        0 <= i < j < actions.len() ==> !(#[trigger] answers(
            actions[i].action.spec_name(),
            actions[i].action.spec_short(),
            name,
        ) && #[trigger] answers(
            actions[j].action.spec_name(),
            actions[j].action.spec_short(),
            name,
        ))
}

/// Registering a filter that has no fault leaves every name with one reading.
pub proof fn registered_filter_is_distinct(filters: Seq<SegmentDef>, def: SegmentDef)
    requires
        filters_distinct(filters),
        filter_fault(filters, def.name@, def.short@, views(def.shapes@)) is None,
    ensures
        filters_distinct(filters.push(def)),
        filter_at(filters.push(def), def.name@, 0) == filters.len(),
        def.short@.len() > 0 ==> filter_at(filters.push(def), def.short@, 0) == filters.len(),
        forall|name: Seq<char>|
            filter_at(filters, name, 0) < filters.len() ==> #[trigger] filter_at(
                filters.push(def),
                name,
                0,
            ) == filter_at(filters, name, 0),
{
    let after = filters.push(def);
    filter_at_bounds(filters, def.name@, 0);
    filter_at_bounds(filters, def.short@, 0);
    assert forall|i: int, j: int, name: Seq<char>|
        0 <= i < j < after.len() implies !(#[trigger] answers(
        after[i].name@,
        after[i].short@,
        name,
    ) && #[trigger] answers(after[j].name@, after[j].short@, name)) by {
        assert(after[i] == filters[i]);
        if j < filters.len() {
            assert(after[j] == filters[j]);
            assert(!(answers(filters[i].name@, filters[i].short@, name) && answers(
                filters[j].name@,
                filters[j].short@,
                name,
            )));
        }
    }
    filter_at_push(filters, def, def.name@, 0);
    filter_at_push(filters, def, def.short@, 0);
    assert forall|name: Seq<char>|
        filter_at(filters, name, 0) < filters.len() implies #[trigger] filter_at(
        after,
        name,
        0,
    ) == filter_at(filters, name, 0) by {
        filter_at_push(filters, def, name, 0);
    }
}

proof fn filter_at_push(filters: Seq<SegmentDef>, def: SegmentDef, name: Seq<char>, from: int)
    requires
        0 <= from <= filters.len(),
    ensures
        filter_at(filters, name, from) < filters.len() ==> filter_at(
            filters.push(def),
            name,
            from,
        ) == filter_at(filters, name, from),
        filter_at(filters, name, from) == filters.len() && answers(def.name@, def.short@, name)
            ==> filter_at(filters.push(def), name, from) == filters.len(),
    decreases filters.len() - from,
{
    let after = filters.push(def);
    if from < filters.len() {
        assert(after[from] == filters[from]);
        filter_at_push(filters, def, name, from + 1);
        filter_at_bounds(filters, name, from + 1);
    } else {
        assert(after[from] == def);
    }
}

/// Registering an action that has no fault leaves every name with one reading.
pub proof fn registered_action_is_distinct(actions: Seq<ActionDef>, def: ActionDef)
    requires
        actions_distinct(actions),
        action_fault(
            actions,
            def.action.spec_name(),
            def.action.spec_short(),
            def.action.spec_options(),
        ) is None,
    ensures
        actions_distinct(actions.push(def)),
        action_at(actions.push(def), def.action.spec_name(), 0) == actions.len(),
        forall|name: Seq<char>|
            action_at(actions, name, 0) < actions.len() ==> #[trigger] action_at(
                actions.push(def),
                name,
                0,
            ) == action_at(actions, name, 0),
{
    let after = actions.push(def);
    let name = def.action.spec_name();
    let short = def.action.spec_short();
    action_at_bounds(actions, name, 0);
    action_at_bounds(actions, short, 0);
    assert forall|i: int, j: int, asked: Seq<char>|
        0 <= i < j < after.len() implies !(#[trigger] answers(
        after[i].action.spec_name(),
        after[i].action.spec_short(),
        asked,
    ) && #[trigger] answers(
        after[j].action.spec_name(),
        after[j].action.spec_short(),
        asked,
    )) by {
        assert(after[i] == actions[i]);
        if j < actions.len() {
            assert(after[j] == actions[j]);
            assert(!(answers(
                actions[i].action.spec_name(),
                actions[i].action.spec_short(),
                asked,
            ) && answers(
                actions[j].action.spec_name(),
                actions[j].action.spec_short(),
                asked,
            )));
        }
    }
    action_at_push(actions, def, name, 0);
    assert forall|asked: Seq<char>|
        action_at(actions, asked, 0) < actions.len() implies #[trigger] action_at(
        after,
        asked,
        0,
    ) == action_at(actions, asked, 0) by {
        action_at_push(actions, def, asked, 0);
    }
}

proof fn action_at_push(actions: Seq<ActionDef>, def: ActionDef, name: Seq<char>, from: int)
    requires
        0 <= from <= actions.len(),
    ensures
        action_at(actions, name, from) < actions.len() ==> action_at(
            actions.push(def),
            name,
            from,
        ) == action_at(actions, name, from),
        action_at(actions, name, from) == actions.len() && answers(
            def.action.spec_name(),
            def.action.spec_short(),
            name,
        ) ==> action_at(actions.push(def), name, from) == actions.len(),
    decreases actions.len() - from,
{
    let after = actions.push(def);
    if from < actions.len() {
        assert(after[from] == actions[from]);
        action_at_push(actions, def, name, from + 1);
        action_at_bounds(actions, name, from + 1);
    } else {
        assert(after[from] == def);
    }
}

/// Where the first of the options before `limit` stands that answers to a name of `option`,
/// `limit` where there is none.
pub open spec fn conflict_at(
    options: Seq<OptModel>,
    option: OptModel,
    limit: int,
    from: int,
) -> int
    decreases limit - from,
{
    if from >= limit {
        limit
    } else if answers(options[from].name, options[from].short, option.name) || (option.short.len()
        > 0 && answers(options[from].name, options[from].short, option.short)) {
        from
    } else {
        conflict_at(options, option, limit, from + 1)
    }
}

/// Two shapes have as many parameters.
pub open spec fn repeats_arity(shapes: Seq<Seq<Param>>) -> bool {
    exists|i: int, j: int|
        0 <= i < j < shapes.len() && (#[trigger] shapes[i]).len() == (#[trigger] shapes[j]).len()
}

/// What is wrong with the option at `at`.
pub open spec fn option_fault(options: Seq<OptModel>, at: int) -> Option<
    DeclarationFault<Seq<char>>,
> {
    let option = options[at];
    let conflict = conflict_at(options, option, at, 0);
    if pair_fault(option.name, option.short) is Some {
        pair_fault(option.name, option.short)
    } else if option.shapes.len() == 0 {
        Some(DeclarationFault::OptionWithoutShape(option.name))
    } else if conflict < at {
        Some(
            DeclarationFault::OptionTaken { option: option.name, earlier: options[conflict].name },
        )
    } else if repeats_arity(option.shapes) {
        Some(DeclarationFault::SameArity(option.name))
    } else {
        None
    }
}

/// What is wrong with the first option, from `from` on, with which anything is.
pub open spec fn options_fault(options: Seq<OptModel>, from: int) -> Option<
    DeclarationFault<Seq<char>>,
>
    decreases options.len() - from,
{
    if from >= options.len() {
        None
    } else if option_fault(options, from) is Some {
        option_fault(options, from)
    } else {
        options_fault(options, from + 1)
    }
}

/// What is wrong with one of the names of an action.
pub open spec fn action_name_fault(actions: Seq<ActionDef>, name: Seq<char>) -> Option<
    DeclarationFault<Seq<char>>,
> {
    if name.len() > 0 && action_at(actions, name, 0) < actions.len() {
        Some(DeclarationFault::ActionTaken(name))
    } else {
        None
    }
}

/// What is wrong with an action that is to be registered.
pub open spec fn action_fault(
    actions: Seq<ActionDef>,
    name: Seq<char>,
    short: Seq<char>,
    options: Seq<OptModel>,
) -> Option<DeclarationFault<Seq<char>>> {
    if pair_fault(name, short) is Some {
        pair_fault(name, short)
    } else if options.len() == 0 {
        Some(DeclarationFault::NoOptions(name))
    } else if options_fault(options, 0) is Some {
        options_fault(options, 0)
    } else if action_name_fault(actions, name) is Some {
        action_name_fault(actions, name)
    } else {
        action_name_fault(actions, short)
    }
}

fn has_repeated_arity(shapes: &Vec<Vec<Param>>) -> (r: bool)
    ensures
        r == repeats_arity(views(shapes@)),
{
    let ghost all = views(shapes@);
    let mut i: usize = 0;
    while i < shapes.len()
        invariant
            i <= shapes@.len(),
            all == views(shapes@),
            forall|a: int, b: int|
                0 <= a < i && a < b < all.len() ==> (#[trigger] all[a]).len() != (
                #[trigger] all[b]).len(),
        decreases shapes@.len() - i,
    {
        let mut j: usize = i + 1;
        while j < shapes.len()
            invariant
                i < j <= shapes@.len(),
                all == views(shapes@),
                forall|b: int| i < b < j ==> all[i as int].len() != (#[trigger] all[b]).len(),
            decreases shapes@.len() - j,
        {
            assert(all[i as int] == shapes@[i as int]@ && all[j as int] == shapes@[j as int]@);
            if shapes[i].len() == shapes[j].len() {
                return true;
            }
            j += 1;
        }
        i += 1;
    }
    false
}

fn check_option(options: &Vec<Opt>, at: usize) -> (r: Option<DeclarationFault>)
    requires
        at < options@.len(),
    ensures
        match (r, option_fault(views(options@), at as int)) {
            (Some(f), Some(want)) => f.model() == want,
            (None, None) => true,
            _ => false,
        },
{
    let ghost all = views(options@);
    let option = &options[at];
    assert(all[at as int] == option@);
    let pair = check_pair(option.name, option.short);
    if pair.is_some() {
        return pair;
    }
    if option.shapes.len() == 0 {
        return Some(DeclarationFault::OptionWithoutShape(option.name.to_owned()));
    }
    let mut i: usize = 0;
    while i < at
        invariant
            i <= at < options@.len(),
            all == views(options@),
            option@ == all[at as int],
            option.shapes@.len() > 0,
            pair_fault(option@.name, option@.short) is None,
            conflict_at(all, option@, at as int, 0) == conflict_at(
                all,
                option@,
                at as int,
                i as int,
            ),
        decreases at - i,
    {
        assert(all[i as int] == options@[i as int]@);
        let earlier = &options[i];
        if earlier.matches(option.name) || (!option.short.is_empty() && earlier.matches(
            option.short,
        )) {
            return Some(
                DeclarationFault::OptionTaken {
                    option: option.name.to_owned(),
                    earlier: earlier.name.to_owned(),
                },
            );
        }
        i += 1;
    }
    if has_repeated_arity(&option.shapes) {
        return Some(DeclarationFault::SameArity(option.name.to_owned()));
    }
    None
}

impl Grammar {
    /// What is wrong with a filter that is to be registered, if anything is.
    pub fn check_filter(&self, name: &str, short: &str, shapes: &Vec<Vec<Param>>) -> (r: Option<
        DeclarationFault,
    >)
        ensures
            match (r, filter_fault(self.filters@, name@, short@, views(shapes@))) {
                (Some(f), Some(want)) => f.model() == want,
                (None, None) => true,
                _ => false,
            },
    {
        if shapes.len() == 0 {
            return Some(DeclarationFault::NoShape);
        }
        if find_shape(shapes, 0) < shapes.len() {
            return Some(DeclarationFault::EmptyShape);
        }
        let pair = check_pair(name, short);
        if pair.is_some() {
            return pair;
        }
        let first = self.check_filter_name(name);
        if first.is_some() {
            return first;
        }
        self.check_filter_name(short)
    }

    fn check_filter_name(&self, name: &str) -> (r: Option<DeclarationFault>)
        ensures
            match (r, filter_name_fault(self.filters@, name@)) {
                (Some(f), Some(want)) => f.model() == want,
                (None, None) => true,
                _ => false,
            },
    {
        if name.is_empty() {
            None
        } else if reserved(name) {
            Some(DeclarationFault::Reserved(name.to_owned()))
        } else if self.filter_for(name).is_some() {
            Some(DeclarationFault::FilterTaken(name.to_owned()))
        } else {
            None
        }
    }

    /// What is wrong with an action that is to be registered, if anything is.
    pub fn check_action(&self, def: &ActionDef) -> (r: Option<DeclarationFault>)
        ensures
            match (
                r,
                action_fault(
                    self.actions@,
                    def.action.spec_name(),
                    def.action.spec_short(),
                    def.action.spec_options(),
                ),
            ) {
                (Some(f), Some(want)) => f.model() == want,
                (None, None) => true,
                _ => false,
            },
    {
        let name = def.action.name();
        let short = def.action.short();
        let pair = check_pair(name, short);
        if pair.is_some() {
            return pair;
        }
        let options = def.action.options();
        if options.len() == 0 {
            return Some(DeclarationFault::NoOptions(name.to_owned()));
        }
        let mut i: usize = 0;
        while i < options.len()
            invariant
                i <= options@.len(),
                options@.len() > 0,
                views(options@) == def.action.spec_options(),
                pair_fault(def.action.spec_name(), def.action.spec_short()) is None,
                options_fault(views(options@), 0) == options_fault(views(options@), i as int),
            decreases options@.len() - i,
        {
            let fault = check_option(&options, i);
            if fault.is_some() {
                return fault;
            }
            i += 1;
        }
        if !name.is_empty() && self.action_for(name).is_some() {
            return Some(DeclarationFault::ActionTaken(name.to_owned()));
        }
        if !short.is_empty() && self.action_for(short).is_some() {
            return Some(DeclarationFault::ActionTaken(short.to_owned()));
        }
        None
    }

    /// The first filter that answers to `name`.
    pub fn filter_for(&self, name: &str) -> (r: Option<&SegmentDef>)
        ensures
            r is Some <==> filter_at(self.filters@, name@, 0) < self.filters@.len(),
            r matches Some(def) ==> *def == self.filters@[filter_at(self.filters@, name@, 0)],
    {
        let mut i: usize = 0;
        while i < self.filters.len()
            invariant
                i <= self.filters@.len(),
                filter_at(self.filters@, name@, 0) == filter_at(self.filters@, name@, i as int),
            decreases self.filters@.len() - i,
        {
            if self.filters[i].matches(name) {
                return Some(&self.filters[i]);
            }
            i += 1;
        }
        None
    }

    /// The first action that answers to `name`.
    pub fn action_for(&self, name: &str) -> (r: Option<&ActionDef>)
        ensures
            r is Some <==> action_at(self.actions@, name@, 0) < self.actions@.len(),
            r matches Some(def) ==> *def == self.actions@[action_at(self.actions@, name@, 0)],
    {
        let mut i: usize = 0;
        while i < self.actions.len()
            invariant
                i <= self.actions@.len(),
                action_at(self.actions@, name@, 0) == action_at(self.actions@, name@, i as int),
            decreases self.actions@.len() - i,
        {
            if self.actions[i].matches(name) {
                return Some(&self.actions[i]);
            }
            i += 1;
        }
        None
    }

    /// Registers a filter.
    pub fn register_filter(&mut self, def: FilterDef) -> (r: &mut Self)
        requires
            filter_fault(old(self).filters@, def.name@, def.short@, views(def.shapes@)) is None,
        ensures
            r.filters@ == old(self).filters@.push(
                (SegmentDef {
                    name: def.name,
                    short: def.short,
                    shapes: def.shapes,
                    condition: def.condition,
                }),
            ),
            r.actions == old(self).actions,
            r.outputs == old(self).outputs,
            *final(self) == *final(r),
    {
        self.filters.push(
            SegmentDef {
                name: def.name,
                short: def.short,
                shapes: def.shapes,
                condition: def.condition,
            },
        );
        self
    }

    /// Registers a filter that does what the core filter of its name does.
    pub fn filter(
        &mut self,
        name: &'static str,
        short: &'static str,
        shapes: Vec<Vec<Param>>,
    ) -> (r: &mut Self)
        requires
            filter_fault(old(self).filters@, name@, short@, views(shapes@)) is None,
        ensures
            r.filters@.len() == old(self).filters@.len() + 1,
            r.filters@.drop_last() == old(self).filters@,
            is_filter(r.filters@.last(), name@, short@, views(shapes@)),
            r.actions == old(self).actions,
            r.outputs == old(self).outputs,
            *final(self) == *final(r),
    {
        let def = filter_named(name, short, shapes);
        self.register_filter(def);
        assert(self.filters@.drop_last() =~= old(self).filters@);
        self
    }

    /// Registers an action.
    pub fn register_action(&mut self, def: ActionDef) -> (r: &mut Self)
        requires
            action_fault(
                old(self).actions@,
                def.action.spec_name(),
                def.action.spec_short(),
                def.action.spec_options(),
            ) is None,
        ensures
            r.actions@ == old(self).actions@.push(def),
            r.filters == old(self).filters,
            r.outputs == old(self).outputs,
            *final(self) == *final(r),
    {
        self.actions.push(def);
        self
    }
}

/// `def` is a filter called `name` and `short`, of these shapes, that does what the core filter
/// called `name` does, or nothing where there is none.
pub open spec fn is_filter(
    def: SegmentDef,
    name: Seq<char>,
    short: Seq<char>,
    shapes: Seq<Seq<Param>>,
) -> bool {
    &&& def.name@ == name
    &&& def.short@ == short
    &&& views(def.shapes@) == shapes
    &&& forall|p: PipelineModel, columns: Seq<(Seq<char>, Seq<char>)>, params: Seq<Seq<char>>|
        #[trigger]
        def.condition.rule.kept(p, columns, params) == (match CoreFilter::spec_named(name) {
            Some(filter) => filter.kept(p, columns, params),
            None => Err(PlanError::Filter(FilterError::UnknownFilter(name))),
        })
}

fn filter_named(name: &'static str, short: &'static str, shapes: Vec<Vec<Param>>) -> (r: FilterDef)
    ensures
        is_filter(
            (SegmentDef { name: r.name, short: r.short, shapes: r.shapes, condition: r.condition }),
            name@,
            short@,
            views(shapes@),
        ),
        r.name == name,
        r.short == short,
        r.shapes == shapes,
{
    let rule = match CoreFilter::named(name) {
        Some(filter) => FilterRule::of(filter),
        None => FilterRule::of(CoreFilter::Undefined(name)),
    };
    FilterDef { name, short, shapes, condition: rule }
}

// Outputs.

/// Where the first output that has the extension stands, `outputs.len()` where there is none.
pub open spec fn claimed_at(outputs: Seq<Arc<OutputDef>>, ext: Seq<char>, from: int) -> int
    decreases outputs.len() - from,
{
    if from >= outputs.len() {
        outputs.len() as int
    } else if outputs[from].output.spec_extensions().contains(ext) {
        from
    } else {
        claimed_at(outputs, ext, from + 1)
    }
}

/// Some texts, each quoted, with a comma between two.
pub open spec fn listed(v: Seq<Seq<char>>) -> Seq<char>
    decreases v.len(),
{
    if v.len() == 0 {
        ""@
    } else if v.len() == 1 {
        quoted(v[0])
    } else {
        listed(v.drop_last()) + ", "@ + quoted(v.last())
    }
}

/// Some texts as a list.
pub open spec fn shown_list(v: Seq<Seq<char>>) -> Seq<char> {
    "["@ + listed(v) + "]"@
}

fn show_list(v: &Vec<&'static str>) -> (r: String)
    ensures
        r@ == shown_list(views(v@)),
{
    let ghost all = views(v@);
    let mut out = "".to_owned();
    let mut i: usize = 0;
    assert(all.take(0) =~= Seq::<Seq<char>>::empty());
    while i < v.len()
        invariant
            i <= v@.len(),
            all == views(v@),
            out@ == listed(all.take(i as int)),
        decreases v@.len() - i,
    {
        assert(all.take(i as int + 1).drop_last() =~= all.take(i as int));
        assert(all[i as int] == v@[i as int]@);
        let next = quote(v[i]);
        if i == 0 {
            out = next;
        } else {
            out = joined(joined(out.as_str(), ", ").as_str(), next.as_str());
        }
        i += 1;
    }
    assert(all.take(i as int) =~= all);
    joined(joined("[", out.as_str()).as_str(), "]")
}

/// `ext` has a letter in upper case.
pub open spec fn has_upper(ext: Seq<char>) -> bool {
    exists|i: int| 0 <= i < ext.len() && 'A' <= #[trigger] ext[i] <= 'Z'
}

fn holds_upper(ext: &[char]) -> (r: bool)
    ensures
        r == has_upper(ext@),
{
    let mut i: usize = 0;
    while i < ext.len()
        invariant
            i <= ext@.len(),
            forall|j: int| 0 <= j < i ==> !('A' <= #[trigger] ext@[j] <= 'Z'),
        decreases ext@.len() - i,
    {
        if 'A' <= ext[i] && ext[i] <= 'Z' {
            return true;
        }
        i += 1;
    }
    false
}

/// What is wrong with the extension at `at`.
pub open spec fn extension_fault(
    outputs: Seq<Arc<OutputDef>>,
    exts: Seq<Seq<char>>,
    overrides: bool,
    at: int,
) -> Option<DeclarationFault<Seq<char>>> {
    let ext = exts[at];
    let held = claimed_at(outputs, ext, 0);
    if !scannable(ext) {
        Some(DeclarationFault::Unscannable(ext))
    } else if ext[0] == '.' || ext.last() == '.' {
        Some(DeclarationFault::MisplacedDot(ext))
    } else if has_upper(ext) {
        Some(DeclarationFault::NotLowercase(ext))
    } else if exts.take(at).contains(ext) {
        Some(DeclarationFault::RepeatedExtension(ext))
    } else if held < outputs.len() && !overrides {
        Some(
            DeclarationFault::Claimed {
                extension: ext,
                by: shown_list(outputs[held].output.spec_extensions()),
            },
        )
    } else {
        None
    }
}

/// What is wrong with the first extension, from `from` on, with which anything is.
pub open spec fn extensions_fault(
    outputs: Seq<Arc<OutputDef>>,
    exts: Seq<Seq<char>>,
    overrides: bool,
    from: int,
) -> Option<DeclarationFault<Seq<char>>>
    decreases exts.len() - from,
{
    if from >= exts.len() {
        None
    } else if extension_fault(outputs, exts, overrides, from) is Some {
        extension_fault(outputs, exts, overrides, from)
    } else {
        extensions_fault(outputs, exts, overrides, from + 1)
    }
}

/// What is wrong with an output that is to be registered.
pub open spec fn output_fault(outputs: Seq<Arc<OutputDef>>, def: OutputDef) -> Option<
    DeclarationFault<Seq<char>>,
> {
    let exts = def.output.spec_extensions();
    if exts.len() == 0 {
        Some(DeclarationFault::NoExtension)
    } else {
        extensions_fault(outputs, exts, def.output.spec_framing().overrides, 0)
    }
}

fn listed_before(exts: &Vec<&'static str>, at: usize) -> (r: bool)
    requires
        at < exts@.len(),
    ensures
        r == views(exts@).take(at as int).contains(views(exts@)[at as int]),
{
    let ghost all = views(exts@);
    let mut i: usize = 0;
    while i < at
        invariant
            i <= at < exts@.len(),
            all == views(exts@),
            forall|j: int| 0 <= j < i ==> #[trigger] all[j] != all[at as int],
        decreases at - i,
    {
        assert(all[i as int] == exts@[i as int]@ && all[at as int] == exts@[at as int]@);
        if same(exts[i], exts[at]) {
            assert(all.take(at as int)[i as int] == all[at as int]);
            return true;
        }
        i += 1;
    }
    assert forall|j: int| 0 <= j < all.take(at as int).len() implies all.take(at as int)[j]
        != all[at as int] by {
        assert(all.take(at as int)[j] == all[j]);
    }
    false
}

impl Grammar {
    /// What is wrong with an output that is to be registered, if anything is.
    pub fn check_output(&self, def: &OutputDef) -> (r: Option<DeclarationFault>)
        ensures
            match (r, output_fault(self.outputs@, *def)) {
                (Some(f), Some(want)) => f.model() == want,
                (None, None) => true,
                _ => false,
            },
    {
        let exts = def.output.extensions();
        if exts.len() == 0 {
            return Some(DeclarationFault::NoExtension);
        }
        let overrides = def.output.overrides();
        let mut i: usize = 0;
        while i < exts.len()
            invariant
                i <= exts@.len(),
                exts@.len() > 0,
                views(exts@) == def.output.spec_extensions(),
                overrides == def.output.spec_framing().overrides,
                extensions_fault(self.outputs@, views(exts@), overrides, 0) == extensions_fault(
                    self.outputs@,
                    views(exts@),
                    overrides,
                    i as int,
                ),
            decreases exts@.len() - i,
        {
            let fault = self.check_extension(&exts, overrides, i);
            if fault.is_some() {
                return fault;
            }
            i += 1;
        }
        None
    }

    fn check_extension(&self, exts: &Vec<&'static str>, overrides: bool, at: usize) -> (r: Option<
        DeclarationFault,
    >)
        requires
            at < exts@.len(),
        ensures
            match (r, extension_fault(self.outputs@, views(exts@), overrides, at as int)) {
                (Some(f), Some(want)) => f.model() == want,
                (None, None) => true,
                _ => false,
            },
    {
        let ext = exts[at];
        assert(views(exts@)[at as int] == ext@);
        if !is_scannable(ext) {
            return Some(DeclarationFault::Unscannable(ext.to_owned()));
        }
        let chars = chars_of(ext);
        if chars[0] == '.' || chars[chars.len() - 1] == '.' {
            return Some(DeclarationFault::MisplacedDot(ext.to_owned()));
        }
        if holds_upper(chars.as_slice()) {
            return Some(DeclarationFault::NotLowercase(ext.to_owned()));
        }
        if listed_before(exts, at) {
            return Some(DeclarationFault::RepeatedExtension(ext.to_owned()));
        }
        let mut i: usize = 0;
        while i < self.outputs.len()
            invariant
                i <= self.outputs@.len(),
                ext@ == views(exts@)[at as int],
                scannable(ext@),
                ext@[0] != '.' && ext@.last() != '.',
                !has_upper(ext@),
                !views(exts@).take(at as int).contains(ext@),
                claimed_at(self.outputs@, ext@, 0) == claimed_at(self.outputs@, ext@, i as int),
            decreases self.outputs@.len() - i,
        {
            if has_extension(&self.outputs[i], ext) {
                if overrides {
                    return None;
                }
                return Some(
                    DeclarationFault::Claimed {
                        extension: ext.to_owned(),
                        by: show_list(&self.outputs[i].output.extensions()),
                    },
                );
            }
            i += 1;
        }
        None
    }

    /// Registers an output.
    pub fn register_output(&mut self, def: OutputDef) -> (r: &mut Self)
        requires
            output_fault(old(self).outputs@, def) is None,
        ensures
            r.outputs@ == old(self).outputs@.push(Arc::new(def)),
            r.filters == old(self).filters,
            r.actions == old(self).actions,
            *final(self) == *final(r),
    {
        self.outputs.push(Arc::new(def));
        self
    }
}

// The grammar that the crate comes with.

/// The filters of the built-in grammar: their names and shapes.
pub open spec fn core_filters() -> Seq<(Seq<char>, Seq<Seq<Param>>)> {
    seq![
        ("id"@, seq![seq![Param::Value], seq![Param::Operator, Param::Value]]),
        (
            "prop"@,
            seq![
                seq![Param::Column, Param::Value],
                seq![Param::Column, Param::Operator, Param::Value],
            ],
        ),
        ("type"@, seq![seq![Param::GeometryType]]),
        ("valid"@, seq![seq![Param::Boolean]]),
        ("empty"@, seq![seq![Param::Boolean]]),
        ("simple"@, seq![seq![Param::Boolean]]),
        ("closed"@, seq![seq![Param::Boolean]]),
    ]
}

/// `filters` are the first `n` of the built-in ones.
pub open spec fn are_core(filters: Seq<SegmentDef>, n: int) -> bool {
    &&& filters.len() == n
    &&& forall|i: int|
        0 <= i < n ==> is_filter(
            #[trigger] filters[i],
            core_filters()[i].0,
            ""@,
            core_filters()[i].1,
        )
}

/// `g` is the built-in grammar.
pub open spec fn is_built_in(g: Grammar) -> bool {
    &&& are_core(g.filters@, 7)
    &&& g.actions@.len() == 0
    &&& g.outputs@.len() == 1
    &&& is_geojson(*g.outputs@[0])
}

proof fn core_names_distinct()
    ensures
        forall|i: int, j: int|
            0 <= i < j < core_filters().len() ==> (#[trigger] core_filters()[i]).0 != (
            #[trigger] core_filters()[j]).0,
        forall|i: int|
            0 <= i < core_filters().len() ==> scannable((#[trigger] core_filters()[i]).0)
                && !is_reserved(core_filters()[i].0) && core_filters()[i].1.len() > 0 && !takes(
                core_filters()[i].1,
                0,
            ),
        ""@.len() == 0,
{
    reveal_strlit("id");
    reveal_strlit("prop");
    reveal_strlit("type");
    reveal_strlit("valid");
    reveal_strlit("empty");
    reveal_strlit("simple");
    reveal_strlit("closed");
    reveal_strlit("enc");
    reveal_strlit("encoding");
    reveal_strlit("");
    assert("id"@.len() == 2);
    assert("prop"@.len() == 4);
    assert("type"@.len() == 4);
    assert("valid"@.len() == 5);
    assert("empty"@.len() == 5);
    assert("simple"@.len() == 6);
    assert("closed"@.len() == 6);
    assert("enc"@.len() == 3);
    assert("encoding"@.len() == 8);
    assert("prop"@[0] != "type"@[0]);
    assert("valid"@[0] != "empty"@[0]);
    assert("simple"@[0] != "closed"@[0]);
}

/// None of the built-in filters has a fault when it is registered after those before it.
pub proof fn core_filter_has_no_fault(filters: Seq<SegmentDef>, n: int)
    requires
        0 <= n < core_filters().len(),
        are_core(filters, n),
    ensures
        filter_fault(filters, core_filters()[n].0, ""@, core_filters()[n].1) is None,
{
    core_names_distinct();
    let name = core_filters()[n].0;
    filter_at_bounds(filters, name, 0);
    let at = filter_at(filters, name, 0);
    if at < filters.len() {
        assert(is_filter(filters[at], core_filters()[at].0, ""@, core_filters()[at].1));
        assert(core_filters()[at].0 != core_filters()[n].0);
    }
}

fn shape1(a: Param) -> (r: Vec<Vec<Param>>)
    ensures
        views(r@) == seq![seq![a]],
{
    let shape: Vec<Param> = vec![a];
    assert(shape@ =~= seq![a]);
    let r: Vec<Vec<Param>> = vec![shape];
    assert(views(r@) =~= seq![seq![a]]);
    r
}

impl Grammar {
    /// The grammar that the crate comes with: GeoJSON, and filters on ids, properties and
    /// geometries.
    pub fn built_in() -> (r: Grammar)
        ensures
            is_built_in(r),
    {
        let mut g = Grammar::default();
        let out = geojson();
        proof {
            geojson_has_no_fault(g.outputs@, out);
        }
        g.register_output(out);
        let ghost all = core_filters();
        let one: Vec<Param> = vec![Param::Value];
        let two: Vec<Param> = vec![Param::Operator, Param::Value];
        assert(one@ =~= seq![Param::Value]);
        assert(two@ =~= seq![Param::Operator, Param::Value]);
        let id: Vec<Vec<Param>> = vec![one, two];
        assert(views(id@) =~= all[0].1);
        proof {
            core_filter_has_no_fault(g.filters@, 0);
        }
        g.filter("id", "", id);
        let two: Vec<Param> = vec![Param::Column, Param::Value];
        let three: Vec<Param> = vec![Param::Column, Param::Operator, Param::Value];
        assert(two@ =~= seq![Param::Column, Param::Value]);
        assert(three@ =~= seq![Param::Column, Param::Operator, Param::Value]);
        let prop: Vec<Vec<Param>> = vec![two, three];
        assert(views(prop@) =~= all[1].1);
        proof {
            core_filter_has_no_fault(g.filters@, 1);
        }
        g.filter("prop", "", prop);
        proof {
            core_filter_has_no_fault(g.filters@, 2);
        }
        g.filter("type", "", shape1(Param::GeometryType));
        proof {
            core_filter_has_no_fault(g.filters@, 3);
        }
        g.filter("valid", "", shape1(Param::Boolean));
        proof {
            core_filter_has_no_fault(g.filters@, 4);
        }
        g.filter("empty", "", shape1(Param::Boolean));
        proof {
            core_filter_has_no_fault(g.filters@, 5);
        }
        g.filter("simple", "", shape1(Param::Boolean));
        proof {
            core_filter_has_no_fault(g.filters@, 6);
        }
        g.filter("closed", "", shape1(Param::Boolean));
        g
    }
}

proof fn geojson_has_no_fault(outputs: Seq<Arc<OutputDef>>, def: OutputDef)
    requires
        outputs.len() == 0,
        is_geojson(def),
    ensures
        output_fault(outputs, def) is None,
{
    reveal_strlit("geojson");
    reveal_strlit("json");
    let exts = def.output.spec_extensions();
    assert(exts == seq!["geojson"@, "json"@]);
    assert(exts.take(0) =~= Seq::<Seq<char>>::empty());
    assert(exts.take(1) =~= seq!["geojson"@]);
    assert("geojson"@.len() == 7);
    assert("json"@.len() == 4);
    assert(!exts.take(1).contains("json"@)) by {
        assert(exts.take(1)[0] != "json"@);
    }
    let overrides = def.output.spec_framing().overrides;
    assert(extension_fault(outputs, exts, overrides, 0) is None);
    assert(extension_fault(outputs, exts, overrides, 1) is None);
    assert(extensions_fault(outputs, exts, overrides, 2) is None);
    assert(extensions_fault(outputs, exts, overrides, 1) is None);
}

} // verus!
