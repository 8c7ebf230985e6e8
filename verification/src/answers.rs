//! What a statement yields: the rows that come of its source, and what became of their geometries.
//!
//! `yields` reads the declarations of a statement one after the other, as the database does, over
//! what the database finds in a source. The laws after it tell which rows a request is answered with
//! and what their geometries are, in terms of the request and the source alone.

use std::sync::Arc;
use vstd::prelude::*;

use crate::ast::{everything, CteModel, RelationModel, SelectModel, Sql};
use crate::backend::{Backend, Dialect, DuckDb};
use crate::filters::{conditions, core_conditions, means_the_core, named_filters_are_core};
use crate::formats::{is_geojson, output_at, Format, GeoJson, Output, OutputDef};
use crate::grammar::{
    action_at, action_at_bounds, answers, is_token, option_at, option_of, shape_at, takes, Action,
    ActionDef, Grammar, Param,
};
use crate::meaning::{every_filter_must_keep_a_row, filter_keeps, keeps, Row};
use crate::process::{is_process, process_options, processed, processed_by, Process};
use crate::query::geometry_column;
use crate::sea::written_with;
use crate::sql::{
    acted, built, features, is_duckdb, misfit_at, planned, planned_on, replacing, segments_fault,
    PipelineModel, PlanError,
};
use crate::text::{begins, lowered, uppercased};
use crate::url::{ActionModel, ParsedModel, SegmentModel};

verus! {

/// A geometry: as the source has it, moved from one reference system to another, or as GeoJSON.
pub enum Shape {
    AsRead,
    Moved(Box<Shape>, Seq<char>, Seq<char>),
    Json(Box<Shape>),
}

/// A row of the source and what became of its geometry.
pub struct Held {
    pub row: Row,
    pub shape: Shape,
}

/// What the database finds in a source that it reads in an encoding.
pub struct Database {
    pub rows: spec_fn(Seq<char>, Seq<char>) -> Seq<Row>,
}

/// What an expression makes of the geometry column `column`, where that holds `shape`.
pub open spec fn shaped(e: Sql, column: Seq<char>, shape: Shape) -> Option<Shape>
    decreases e,
{
    match e {
        Sql::Column(name) => if name == column {
            Some(shape)
        } else {
            None
        },
        Sql::Call(function, args) => if function == "ST_AsGeoJSON"@ && args.len() == 1 {
            match shaped(args[0], column, shape) {
                Some(inner) => Some(Shape::Json(Box::new(inner))),
                None => None,
            }
        } else if function == "ST_Transform"@ && args.len() == 4 && args[1] is Text && args[2] is Text
            && args[3] == Sql::Raw("always_xy := true"@) {
            match shaped(args[0], column, shape) {
                Some(inner) => Some(
                    Shape::Moved(Box::new(inner), args[1]->Text_0, args[2]->Text_0),
                ),
                None => None,
            }
        } else {
            None
        },
        _ => None,
    }
}

/// The rows of a source, with their geometries as they are.
pub open spec fn as_read(rows: Seq<Row>) -> Seq<Held> {
    Seq::new(rows.len(), |i: int| Held { row: rows[i], shape: Shape::AsRead })
}

/// The rows that a condition keeps.
pub open spec fn kept(rows: Seq<Held>, condition: Option<Sql>) -> Seq<Held> {
    match condition {
        Some(c) => rows.filter(|held: Held| keeps(c, held.row)),
        None => rows,
    }
}

/// The rows with an expression in place of their geometries.
pub open spec fn reshaped(rows: Seq<Held>, e: Sql, column: Seq<char>) -> Option<Seq<Held>> {
    if forall|i: int| 0 <= i < rows.len() ==> shaped(e, column, (#[trigger] rows[i]).shape) is Some {
        Some(
            Seq::new(
                rows.len(),
                |i: int| Held { row: rows[i].row, shape: shaped(e, column, rows[i].shape)->0 },
            ),
        )
    } else {
        None
    }
}

/// What a select reads and keeps: a source, or what was declared before it.
pub open spec fn selected(
    ctes: Seq<CteModel>,
    query: SelectModel,
    column: Seq<char>,
    db: Database,
) -> Option<Seq<Held>>
    decreases ctes.len(), 1nat,
{
    if query.columns.len() != 1 || query.columns[0].alias is Some || query.from.len() != 1
        || query.limit is Some {
        None
    } else {
        match (query.columns[0].expr, query.from[0]) {
            (Sql::Raw(star), RelationModel::Function(function, args, _)) => if star == "*"@ && function
                == "ST_Read"@ && query.filter is None && args.len() == 2 && args[0] is Text
                && args[1] is Template && args[1]->Template_0 == "open_options=list_value($1)"@
                && args[1]->Template_1.len() == 1 && args[1]->Template_1[0] is Text && begins(
                args[1]->Template_1[0]->Text_0,
                "ENCODING="@,
            ) {
                Some(
                    as_read(
                        (db.rows)(
                            args[0]->Text_0,
                            args[1]->Template_1[0]->Text_0.skip("ENCODING="@.len() as int),
                        ),
                    ),
                )
            } else {
                None
            },
            (Sql::Raw(star), RelationModel::Table(name)) => if star == "*"@ {
                match yields(ctes, name, column, db) {
                    Some(rows) => Some(kept(rows, query.filter)),
                    None => None,
                }
            } else {
                None
            },
            (Sql::Template(t, args), RelationModel::Table(name)) => if t
                == "* REPLACE ($1 AS $2)"@ && query.filter is None && args.len() == 2 && args[1]
                == Sql::Column(column) {
                match yields(ctes, name, column, db) {
                    Some(rows) => reshaped(rows, args[0], column),
                    None => None,
                }
            } else {
                None
            },
            _ => None,
        }
    }
}

/// The rows of what was declared under a name.
pub open spec fn yields(
    ctes: Seq<CteModel>,
    name: Seq<char>,
    column: Seq<char>,
    db: Database,
) -> Option<Seq<Held>>
    decreases ctes.len(), 0nat,
{
    if ctes.len() == 0 {
        None
    } else if ctes.last().name == name {
        selected(ctes.drop_last(), ctes.last().query, column, db)
    } else {
        yields(ctes.drop_last(), name, column, db)
    }
}

/// The select of one GeoJSON feature for each row of a table: its type, all its columns but the
/// geometry as properties, and the geometry.
pub open spec fn is_feature(e: Sql, table: Seq<char>, column: Seq<char>) -> bool {
    e == Sql::Cast(
        Box::new(
            Sql::Call(
                "json_object"@,
                seq![
                    Sql::Text("type"@),
                    Sql::Text("Feature"@),
                    Sql::Text("properties"@),
                    Sql::Call(
                        "json_merge_patch"@,
                        seq![
                            Sql::Call("to_json"@, seq![Sql::Column(table)]),
                            Sql::Call(
                                "json_object"@,
                                seq![Sql::Text(column), Sql::Raw("NULL"@)],
                            ),
                        ],
                    ),
                    Sql::Text("geometry"@),
                    Sql::Cast(Box::new(Sql::Column(column)), "JSON"@),
                ],
            ),
        ),
        "VARCHAR"@,
    )
}

/// The rows that a statement answers with a feature each.
pub open spec fn answered_as_features(
    ctes: Seq<CteModel>,
    select: SelectModel,
    column: Seq<char>,
    db: Database,
) -> Option<Seq<Held>> {
    if select.columns.len() == 1 && select.columns[0].alias is None && select.from.len() == 1
        && select.filter is None && select.limit is None && select.from[0] is Table && is_feature(
        select.columns[0].expr,
        select.from[0]->Table_0,
        column,
    ) {
        yields(ctes, select.from[0]->Table_0, column, db)
    } else {
        None
    }
}

// What a request is answered with.

/// Rows that all have the same done to their geometries.
pub open spec fn with_shape(rows: Seq<Row>, shape: Shape) -> Seq<Held> {
    Seq::new(rows.len(), |i: int| Held { row: rows[i], shape })
}

/// `crs` names longitude and latitude.
pub open spec fn is_lonlat(crs: Seq<char>) -> bool {
    crs == "EPSG:4326"@ || crs == "OGC:CRS84"@ || crs == "CRS84"@ || crs == "crs84"@
}

/// What comes of a geometry in one reference system that is wanted in another: it is moved unless
/// the two are the same.
pub open spec fn brought(shape: Shape, from: Seq<char>, to: Seq<char>) -> Shape {
    if from == to || (is_lonlat(from) && is_lonlat(to)) {
        shape
    } else {
        Shape::Moved(Box::new(shape), uppercased(from), uppercased(to))
    }
}

/// The reference system that the parameters of `reproject` name: a code of the EPSG, or an authority
/// and a code.
pub open spec fn target_named(params: Seq<Seq<char>>) -> Seq<char> {
    if params.len() == 1 {
        "EPSG:"@ + uppercased(params[0])
    } else {
        uppercased(params[0]) + ":"@ + uppercased(params[1])
    }
}

/// What comes of a geometry that is reprojected by each of some options, and the reference system
/// that it is in then.
pub open spec fn travelled(shape: Shape, crs: Seq<char>, segments: Seq<SegmentModel>) -> (
    Shape,
    Seq<char>,
)
    decreases segments.len(),
{
    if segments.len() == 0 {
        (shape, crs)
    } else {
        let to = target_named(segments[0].params);
        travelled(brought(shape, crs, to), to, segments.skip(1))
    }
}

/// What comes of a geometry that is reprojected by each of some actions.
pub open spec fn travelled_by(shape: Shape, crs: Seq<char>, actions: Seq<ActionModel>) -> (
    Shape,
    Seq<char>,
)
    decreases actions.len(),
{
    if actions.len() == 0 {
        (shape, crs)
    } else {
        let (next, to) = travelled(shape, crs, actions[0].segments);
        travelled_by(next, to, actions.skip(1))
    }
}

/// An action that reprojects, each time to a reference system that is named by one or two words.
pub open spec fn reprojects(action: ActionModel) -> bool {
    &&& action.name == "process"@ || action.name == "p"@
    &&& forall|i: int|
        0 <= i < action.segments.len() ==> {
            let segment = #[trigger] action.segments[i];
            &&& segment.name == "reproject"@
            &&& segment.params.len() == 1 || segment.params.len() == 2
            &&& forall|k: int|
                0 <= k < segment.params.len() ==> is_token(#[trigger] segment.params[k])
        }
}

/// The rows of a source that every filter keeps.
pub open spec fn kept_by_all(
    rows: Seq<Row>,
    filters: Seq<SegmentModel>,
    geometry: Seq<char>,
    columns: Seq<(Seq<char>, Seq<char>)>,
) -> Seq<Row> {
    rows.filter(
        |row: Row|
            forall|i: int|
                0 <= i < filters.len() ==> filter_keeps(
                    #[trigger] filters[i],
                    geometry,
                    columns,
                    row,
                ),
    )
}

/// A pipeline on DuckDB yields these rows, with this done to their geometries.
spec fn holds(
    p: PipelineModel,
    column: Seq<char>,
    db: Database,
    rows: Seq<Row>,
    shape: Shape,
) -> bool {
    &&& p.geometry == column
    &&& is_duckdb(p.backend)
    &&& yields(p.ctes, p.input, column, db) == Some(with_shape(rows, shape))
}

proof fn step_yields(
    p: PipelineModel,
    action: Seq<char>,
    select: SelectModel,
    column: Seq<char>,
    db: Database,
)
    ensures
        ({
            let after = p.stepped(action, select);
            yields(after.ctes, after.input, column, db) == selected(p.ctes, select, column, db)
        }),
{
    let after = p.stepped(action, select);
    assert(after.ctes.drop_last() =~= p.ctes);
    assert(after.ctes.last().name == after.input);
}

proof fn kept_shapes(rows: Seq<Row>, shape: Shape, c: Sql)
    ensures
        kept(with_shape(rows, shape), Some(c)) == with_shape(
            rows.filter(|row: Row| keeps(c, row)),
            shape,
        ),
    decreases rows.len(),
{
    reveal(Seq::filter);
    let all = with_shape(rows, shape);
    let few = rows.filter(|row: Row| keeps(c, row));
    if rows.len() == 0 {
        assert(kept(all, Some(c)) =~= with_shape(few, shape));
    } else {
        kept_shapes(rows.drop_last(), shape, c);
        assert(all.drop_last() =~= with_shape(rows.drop_last(), shape));
        let before = rows.drop_last().filter(|row: Row| keeps(c, row));
        assert(kept(all, Some(c)) =~= with_shape(few, shape));
    }
}

proof fn same_filter(rows: Seq<Row>, a: spec_fn(Row) -> bool, b: spec_fn(Row) -> bool)
    requires
        forall|row: Row| #[trigger] a(row) == b(row),
    ensures
        rows.filter(a) == rows.filter(b),
    decreases rows.len(),
{
    reveal(Seq::filter);
    if rows.len() > 0 {
        same_filter(rows.drop_last(), a, b);
    }
}

proof fn all_are_kept(rows: Seq<Row>, f: spec_fn(Row) -> bool)
    requires
        forall|row: Row| #[trigger] f(row),
    ensures
        rows.filter(f) == rows,
    decreases rows.len(),
{
    reveal(Seq::filter);
    if rows.len() > 0 {
        all_are_kept(rows.drop_last(), f);
        assert(rows.drop_last().push(rows.last()) =~= rows);
    } else {
        assert(rows.filter(f) =~= rows);
    }
}

proof fn replaced_yields(
    p: PipelineModel,
    action: Seq<char>,
    e: Sql,
    column: Seq<char>,
    db: Database,
    rows: Seq<Row>,
    before: Shape,
    after: Shape,
)
    requires
        holds(p, column, db, rows, before),
        shaped(e, column, before) == Some(after),
    ensures
        holds(p.replaced(action, e), column, db, rows, after),
{
    let select = replacing(p.input, p.geometry, e);
    step_yields(p, action, select, column, db);
    let args = seq![e, Sql::Column(column)];
    assert(args[0] == e && args[1] == Sql::Column(column) && args.len() == 2);
    assert(select.columns[0].expr == Sql::Template("* REPLACE ($1 AS $2)"@, args));
    assert(select.from[0] == RelationModel::Table(p.input));
    let all = with_shape(rows, before);
    assert(reshaped(all, e, column)->0 =~= with_shape(rows, after));
}

proof fn moved_shape(g: Seq<char>, from: Seq<char>, to: Seq<char>, shape: Shape)
    ensures
        shaped(
            Sql::Call(
                "ST_Transform"@,
                seq![
                    Sql::Column(g),
                    Sql::Text(from),
                    Sql::Text(to),
                    Sql::Raw("always_xy := true"@),
                ],
            ),
            g,
            shape,
        ) == Some(Shape::Moved(Box::new(shape), from, to)),
        shaped(Sql::Call("ST_AsGeoJSON"@, seq![Sql::Column(g)]), g, shape) == Some(
            Shape::Json(Box::new(shape)),
        ),
        shaped(Sql::Column(g), g, shape) == Some(shape),
{
    reveal_strlit("ST_Transform");
    reveal_strlit("ST_AsGeoJSON");
    let args = seq![
        Sql::Column(g),
        Sql::Text(from),
        Sql::Text(to),
        Sql::Raw("always_xy := true"@),
    ];
    assert(args[0] == Sql::Column(g) && args[1] == Sql::Text(from) && args[2] == Sql::Text(to));
    assert(args[3] == Sql::Raw("always_xy := true"@) && args.len() == 4);
    assert("ST_Transform"@[3] == 'T' && "ST_AsGeoJSON"@[3] == 'A');
    let one = seq![Sql::Column(g)];
    assert(one[0] == Sql::Column(g) && one.len() == 1);
    reveal_with_fuel(shaped, 2);
}

proof fn brought_yields(
    p: PipelineModel,
    action: Seq<char>,
    to: Seq<char>,
    column: Seq<char>,
    db: Database,
    rows: Seq<Row>,
    shape: Shape,
)
    requires
        holds(p, column, db, rows, shape),
    ensures
        holds(
            p.replaced(action, p.moved(to)),
            column,
            db,
            rows,
            brought(shape, p.crs, to),
        ),
{
    moved_shape(column, uppercased(p.crs), uppercased(to), shape);
    assert(p.backend.dialect.dialect.transformed(Sql::Column(column), p.crs, to)
        == DuckDb.transformed(Sql::Column(column), p.crs, to));
    replaced_yields(
        p,
        action,
        p.moved(to),
        column,
        db,
        rows,
        shape,
        brought(shape, p.crs, to),
    );
}

proof fn processed_yields(
    p: PipelineModel,
    step: Seq<char>,
    segments: Seq<SegmentModel>,
    column: Seq<char>,
    db: Database,
    rows: Seq<Row>,
    shape: Shape,
)
    requires
        holds(p, column, db, rows, shape),
        forall|i: int|
            0 <= i < segments.len() ==> {
                let segment = #[trigger] segments[i];
                &&& segment.name == "reproject"@
                &&& segment.params.len() == 1 || segment.params.len() == 2
            },
    ensures
        processed(p, step, segments) matches Ok(done) && holds(
            done,
            column,
            db,
            rows,
            travelled(shape, p.crs, segments).0,
        ) && done.crs == travelled(shape, p.crs, segments).1,
    decreases segments.len(),
{
    if segments.len() > 0 {
        let to = target_named(segments[0].params);
        brought_yields(p, step, to, column, db, rows, shape);
        let next = processed_by(p, step, segments[0])->Ok_0;
        assert(processed_by(p, step, segments[0]) is Ok);
        assert(next.crs == to);
        let rest = segments.skip(1);
        assert forall|i: int| 0 <= i < rest.len() implies ({
            let segment = #[trigger] rest[i];
            &&& segment.name == "reproject"@
            &&& segment.params.len() == 1 || segment.params.len() == 2
        }) by {
            assert(rest[i] == segments[i + 1]);
        }
        assert(holds(next, column, db, rows, brought(shape, p.crs, to)));
        processed_yields(next, step, rest, column, db, rows, brought(shape, p.crs, to));
    }
}

proof fn options_are_taken(action: ActionModel, from: int)
    requires
        reprojects(action),
        0 <= from <= action.segments.len(),
    ensures
        segments_fault(process_options(), action.name, action.segments, from) is None,
    decreases action.segments.len() - from,
{
    if from < action.segments.len() {
        options_are_taken(action, from + 1);
        let segment = action.segments[from];
        let options = process_options();
        let n = segment.params.len();
        let shapes = options[0].shapes;
        reveal_with_fuel(option_at, 2);
        assert(option_at(options, segment.name, 0) == 0);
        assert(option_of(options, segment.name) == Some(options[0]));
        assert(shapes[0].len() == 1 && shapes[1].len() == 2);
        reveal_with_fuel(shape_at, 3);
        let shape = shapes[shape_at(shapes, n, 0)];
        assert(shape.len() == n);
        assert(takes(shapes, n)) by {
            assert(shapes[(n - 1) as int].len() == n);
        }
        assert forall|k: int| 0 <= k < n implies shape[k].fits(#[trigger] segment.params[k]) by {
            assert(shape[k] == Param::Token);
        }
        reveal_with_fuel(misfit_at, 3);
        assert(misfit_at(shape, segment.params, 0) == n);
    }
}

proof fn acted_yields(
    actions: Seq<ActionDef>,
    p: PipelineModel,
    asked: Seq<ActionModel>,
    named: bool,
    column: Seq<char>,
    db: Database,
    rows: Seq<Row>,
    shape: Shape,
)
    requires
        asked.len() > 0 ==> actions.len() == 1 && is_process(actions[0]),
        holds(p, column, db, rows, shape),
        forall|i: int| 0 <= i < asked.len() ==> reprojects(#[trigger] asked[i]),
    ensures
        acted(actions, p, asked, named) matches Ok(done) && holds(
            done,
            column,
            db,
            rows,
            travelled_by(shape, p.crs, asked).0,
        ) && done.crs == travelled_by(shape, p.crs, asked).1,
    decreases asked.len(),
{
    if asked.len() > 0 {
        let next = asked[0];
        let rest = asked.skip(1);
        assert(reprojects(next));
        reveal_strlit("p");
        reveal_with_fuel(action_at, 2);
        assert(action_at(actions, next.name, 0) == 0);
        let action = actions[0].action;
        let step = if named {
            "process"@
        } else {
            "step"@
        };
        let table = if named {
            "process"@
        } else {
            "x"@
        };
        options_are_taken(next, 0);
        assert(action.ran(p, step, table, next.segments) == Process.ran(
            p,
            step,
            table,
            next.segments,
        ));
        processed_yields(p, step, next.segments, column, db, rows, shape);
        let done = processed(p, step, next.segments)->Ok_0;
        let (after, to) = travelled(shape, p.crs, next.segments);
        assert forall|i: int| 0 <= i < rest.len() implies reprojects(#[trigger] rest[i]) by {
            assert(rest[i] == asked[i + 1]);
        }
        acted_yields(actions, done, rest, named, column, db, rows, after);
    }
}

proof fn source_yields(
    source: Seq<char>,
    encoding: Seq<char>,
    column: Seq<char>,
    crs: Seq<char>,
    backend: Backend,
    db: Database,
)
    requires
        is_duckdb(backend),
    ensures
        holds(
            PipelineModel::reading(source, encoding, column, crs, backend),
            column,
            db,
            (db.rows)(source, encoding),
            Shape::AsRead,
        ),
{
    let p = PipelineModel::reading(source, encoding, column, crs, backend);
    let rows = (db.rows)(source, encoding);
    let before = p.ctes.drop_last();
    assert(before =~= Seq::empty());
    let query = p.ctes.last().query;
    let option = "ENCODING="@ + encoding;
    let options = seq![Sql::Text(option)];
    let args = seq![Sql::Text(source), Sql::Template("open_options=list_value($1)"@, options)];
    assert(query.from[0] == RelationModel::Function("ST_Read"@, args, "src"@));
    assert(args[0] == Sql::Text(source) && args.len() == 2);
    assert(args[1] == Sql::Template("open_options=list_value($1)"@, options));
    assert(options[0] == Sql::Text(option) && options.len() == 1);
    assert(option.subrange(0, "ENCODING="@.len() as int) =~= "ENCODING="@);
    assert(option.skip("ENCODING="@.len() as int) =~= encoding);
    assert(query.columns[0].expr == Sql::Raw("*"@));
    assert(selected(before, query, column, db) == Some(as_read(rows)));
    assert(as_read(rows) =~= with_shape(rows, Shape::AsRead));
}

proof fn narrowed_yields(
    p: PipelineModel,
    filters: Seq<SegmentModel>,
    columns: Seq<(Seq<char>, Seq<char>)>,
    column: Seq<char>,
    db: Database,
    rows: Seq<Row>,
    shape: Shape,
)
    requires
        holds(p, column, db, rows, shape),
        core_conditions(filters, column, columns, None) is Ok,
    ensures
        holds(
            p.narrowed(core_conditions(filters, column, columns, None)->Ok_0),
            column,
            db,
            kept_by_all(rows, filters, column, columns),
            shape,
        ),
        p.narrowed(core_conditions(filters, column, columns, None)->Ok_0).crs == p.crs,
{
    let condition = core_conditions(filters, column, columns, None)->Ok_0;
    let all = |row: Row|
        forall|i: int|
            0 <= i < filters.len() ==> filter_keeps(#[trigger] filters[i], column, columns, row);
    match condition {
        Some(c) => {
            let select = SelectModel { filter: Some(c), ..everything(p.input) };
            step_yields(p, "step"@, select, column, db);
            assert(select.columns[0].expr == Sql::Raw("*"@));
            assert(select.from[0] == RelationModel::Table(p.input));
            kept_shapes(rows, shape, c);
            let one = |row: Row| keeps(c, row);
            assert forall|row: Row| #[trigger] one(row) == all(row) by {
                every_filter_must_keep_a_row(filters, column, columns, None, row);
            }
            same_filter(rows, one, all);
        },
        None => {
            every_filter_must_keep_a_row(filters, column, columns, None, arbitrary());
            all_are_kept(rows, all);
        },
    }
}

/// A request for GeoJSON on DuckDB is answered with a feature for each row of its source that every
/// one of its filters keeps, and for no other, in the order of the source. The geometry of each is
/// reprojected by each of its actions in turn, from the reference system of the source on, is in
/// longitude and latitude in the end, and is written as GeoJSON.
pub proof fn requests_are_answered_with_the_kept_rows(
    grammar: Grammar,
    parsed: ParsedModel,
    source: Seq<char>,
    columns: Seq<(Seq<char>, Seq<char>)>,
    geometry: Seq<char>,
    crs: Option<Seq<char>>,
    backend: Backend,
    db: Database,
)
    requires
        geometry_column(columns) == Some(geometry),
        is_duckdb(backend),
        forall|i: int|
            0 <= i < parsed.filters.len() ==> means_the_core(
                grammar.filters@,
                (#[trigger] parsed.filters[i]).name,
            ),
        core_conditions(parsed.filters, geometry, columns, None) is Ok,
        parsed.actions.len() > 0 ==> grammar.actions@.len() == 1 && is_process(grammar.actions@[0]),
        forall|i: int| 0 <= i < parsed.actions.len() ==> reprojects(#[trigger] parsed.actions[i]),
        grammar.outputs@.len() == 1,
        is_geojson(*grammar.outputs@[0]),
        lowered(parsed.extension) == "geojson"@ || lowered(parsed.extension) == "json"@,
    ensures
        ({
            let rows = kept_by_all(
                (db.rows)(source, parsed.encoding),
                parsed.filters,
                geometry,
                columns,
            );
            let start = match crs {
                Some(name) => name,
                None => "EPSG:4326"@,
            };
            let (shape, last) = travelled_by(Shape::AsRead, start, parsed.actions);
            let shape = if is_lonlat(last) {
                shape
            } else {
                brought(shape, last, "EPSG:4326"@)
            };
            exists|ctes: Seq<CteModel>, select: SelectModel|
                planned_on(grammar, parsed, source, columns, crs, backend) == Ok::<
                    Seq<char>,
                    PlanError<Seq<char>>,
                >(#[trigger] written_with(ctes, select)) && answered_as_features(
                    ctes,
                    select,
                    geometry,
                    db,
                ) == Some(with_shape(rows, Shape::Json(Box::new(shape))))
        }),
{
    let start = match crs {
        Some(name) => name,
        None => "EPSG:4326"@,
    };
    let reading = PipelineModel::reading(source, parsed.encoding, geometry, start, backend);
    let all = (db.rows)(source, parsed.encoding);
    let rows = kept_by_all(all, parsed.filters, geometry, columns);
    source_yields(source, parsed.encoding, geometry, start, backend, db);
    named_filters_are_core(grammar.filters@, reading, columns, parsed.filters, None);
    narrowed_yields(reading, parsed.filters, columns, geometry, db, all, Shape::AsRead);
    let condition = core_conditions(parsed.filters, geometry, columns, None)->Ok_0;
    let filtered = reading.narrowed(condition);
    acted_yields(
        grammar.actions@,
        filtered,
        parsed.actions,
        true,
        geometry,
        db,
        rows,
        Shape::AsRead,
    );
    let done = acted(grammar.actions@, filtered, parsed.actions, true)->Ok_0;
    let (shape, last) = travelled_by(Shape::AsRead, start, parsed.actions);
    let outputs = grammar.outputs@;
    let exts = outputs[0].output.spec_extensions();
    assert(exts[0] == "geojson"@ && exts[1] == "json"@);
    assert(exts.contains(lowered(parsed.extension)));
    assert(output_at(outputs, lowered(parsed.extension), Some(parsed), 1) == Some(0int));
    let output = outputs[0].output;
    let ready = if is_lonlat(last) {
        done
    } else {
        done.lonlat("output"@)
    };
    let there = if is_lonlat(last) {
        shape
    } else {
        brought(shape, last, "EPSG:4326"@)
    };
    if !is_lonlat(last) {
        brought_yields(done, "output"@, "EPSG:4326"@, geometry, db, rows, shape);
    }
    assert(holds(ready, geometry, db, rows, there));
    let json = Sql::Call("ST_AsGeoJSON"@, seq![Sql::Column(geometry)]);
    moved_shape(geometry, geometry, geometry, there);
    replaced_yields(
        ready,
        "output"@,
        json,
        geometry,
        db,
        rows,
        there,
        Shape::Json(Box::new(there)),
    );
    let made = ready.replaced("output"@, json);
    assert(ready.backend.dialect.dialect.encoded(Sql::Column(geometry)) == DuckDb.encoded(
        Sql::Column(geometry),
    ));
    assert(output.selects(ready, "output"@, parsed) == GeoJson.selects(ready, "output"@, parsed));
    let select = features(made.input, made.geometry);
    assert(select.from[0] == RelationModel::Table(made.input));
    assert(is_feature(select.columns[0].expr, made.input, geometry));
    assert(planned_on(grammar, parsed, source, columns, crs, backend) == Ok::<
        Seq<char>,
        PlanError<Seq<char>>,
    >(written_with(made.ctes, select)));
}

/// What is built of a source, its filters and its format is a feature for each row of the source
/// that every filter keeps, in longitude and latitude and as GeoJSON, on any database.
pub proof fn built_features_are_the_kept_rows(
    source: Seq<char>,
    encoding: Seq<char>,
    filters: Seq<SegmentModel>,
    format: Format,
    columns: Seq<(Seq<char>, Seq<char>)>,
    geometry: Seq<char>,
    crs: Option<Seq<char>>,
    backend: Backend,
    db: Database,
)
    requires
        geometry_column(columns) == Some(geometry),
        core_conditions(filters, geometry, columns, None) is Ok,
        is_duckdb(backend),
    ensures
        ({
            let rows = kept_by_all((db.rows)(source, encoding), filters, geometry, columns);
            let shape = match crs {
                Some(from) if !is_lonlat(from) => Shape::Moved(
                    Box::new(Shape::AsRead),
                    from,
                    "EPSG:4326"@,
                ),
                _ => Shape::AsRead,
            };
            exists|ctes: Seq<CteModel>, select: SelectModel|
                built(source, encoding, filters, format, columns, crs, backend) == Ok::<
                    Seq<char>,
                    PlanError<Seq<char>>,
                >(#[trigger] written_with(ctes, select)) && answered_as_features(
                    ctes,
                    select,
                    geometry,
                    db,
                ) == Some(with_shape(rows, Shape::Json(Box::new(shape))))
        }),
{
    let reading = PipelineModel::reading(source, encoding, geometry, "EPSG:4326"@, backend);
    let all = (db.rows)(source, encoding);
    let rows = kept_by_all(all, filters, geometry, columns);
    source_yields(source, encoding, geometry, "EPSG:4326"@, backend, db);
    narrowed_yields(reading, filters, columns, geometry, db, all, Shape::AsRead);
    let filtered = reading.narrowed(core_conditions(filters, geometry, columns, None)->Ok_0);
    reprojected_yields(filtered, crs, format, geometry, db, rows);
    let ready = filtered.reprojected(crs, format);
    let shape = first_move(crs);
    let json = Sql::Call("ST_AsGeoJSON"@, seq![Sql::Column(geometry)]);
    moved_shape(geometry, geometry, geometry, shape);
    replaced_yields(
        ready,
        "step"@,
        json,
        geometry,
        db,
        rows,
        shape,
        Shape::Json(Box::new(shape)),
    );
    let made = ready.replaced("step"@, json);
    let select = features(made.input, made.geometry);
    assert(select.from[0] == RelationModel::Table(made.input));
    assert(is_feature(select.columns[0].expr, made.input, geometry));
    assert(built(source, encoding, filters, format, columns, crs, backend) == Ok::<
        Seq<char>,
        PlanError<Seq<char>>,
    >(written_with(made.ctes, select)));
}

spec fn first_move(crs: Option<Seq<char>>) -> Shape {
    match crs {
        Some(from) if !is_lonlat(from) => Shape::Moved(
            Box::new(Shape::AsRead),
            from,
            "EPSG:4326"@,
        ),
        _ => Shape::AsRead,
    }
}

proof fn reprojected_yields(
    p: PipelineModel,
    crs: Option<Seq<char>>,
    format: Format,
    column: Seq<char>,
    db: Database,
    rows: Seq<Row>,
)
    requires
        holds(p, column, db, rows, Shape::AsRead),
    ensures
        holds(p.reprojected(crs, format), column, db, rows, first_move(crs)),
        p.reprojected(crs, format).crs == p.crs,
{
    match crs {
        Some(from) if !is_lonlat(from) => {
            moved_shape(column, from, "EPSG:4326"@, Shape::AsRead);
            replaced_yields(
                p,
                "step"@,
                Sql::Call(
                    "ST_Transform"@,
                    seq![
                        Sql::Column(p.geometry),
                        Sql::Text(from),
                        Sql::Text("EPSG:4326"@),
                        Sql::Raw("always_xy := true"@),
                    ],
                ),
                column,
                db,
                rows,
                Shape::AsRead,
                first_move(crs),
            );
        },
        _ => {},
    }
}

/// A request with actions is planned as the rows of its source that every filter keeps, brought into
/// longitude and latitude first and reprojected by each of the actions in turn.
pub proof fn actions_work_on_the_kept_rows(
    grammar: Grammar,
    parsed: ParsedModel,
    format: Format,
    source: Seq<char>,
    columns: Seq<(Seq<char>, Seq<char>)>,
    geometry: Seq<char>,
    crs: Option<Seq<char>>,
    backend: Backend,
    db: Database,
)
    requires
        geometry_column(columns) == Some(geometry),
        is_duckdb(backend),
        parsed.format == Some(format),
        forall|i: int|
            0 <= i < parsed.filters.len() ==> means_the_core(
                grammar.filters@,
                (#[trigger] parsed.filters[i]).name,
            ),
        core_conditions(parsed.filters, geometry, columns, None) is Ok,
        grammar.actions@.len() == 1,
        is_process(grammar.actions@[0]),
        parsed.actions.len() > 0,
        forall|i: int| 0 <= i < parsed.actions.len() ==> reprojects(#[trigger] parsed.actions[i]),
    ensures
        ({
            let rows = kept_by_all(
                (db.rows)(source, parsed.encoding),
                parsed.filters,
                geometry,
                columns,
            );
            let first = match crs {
                Some(from) if !is_lonlat(from) => Shape::Moved(
                    Box::new(Shape::AsRead),
                    from,
                    "EPSG:4326"@,
                ),
                _ => Shape::AsRead,
            };
            let shape = travelled_by(first, "EPSG:4326"@, parsed.actions).0;
            exists|ctes: Seq<CteModel>, select: SelectModel|
                planned(grammar, parsed, source, columns, crs, backend) == Ok::<
                    Seq<char>,
                    PlanError<Seq<char>>,
                >(#[trigger] written_with(ctes, select)) && selected(ctes, select, geometry, db)
                    == Some(with_shape(rows, shape))
        }),
{
    let reading = PipelineModel::reading(
        source,
        parsed.encoding,
        geometry,
        "EPSG:4326"@,
        backend,
    );
    let all = (db.rows)(source, parsed.encoding);
    let rows = kept_by_all(all, parsed.filters, geometry, columns);
    source_yields(source, parsed.encoding, geometry, "EPSG:4326"@, backend, db);
    named_filters_are_core(grammar.filters@, reading, columns, parsed.filters, None);
    narrowed_yields(reading, parsed.filters, columns, geometry, db, all, Shape::AsRead);
    let condition = core_conditions(parsed.filters, geometry, columns, None)->Ok_0;
    let filtered = reading.narrowed(condition);
    reprojected_yields(filtered, crs, format, geometry, db, rows);
    let ready = filtered.reprojected(crs, format);
    acted_yields(
        grammar.actions@,
        ready,
        parsed.actions,
        false,
        geometry,
        db,
        rows,
        first_move(crs),
    );
    let done = acted(grammar.actions@, ready, parsed.actions, false)->Ok_0;
    let select = everything(done.input);
    assert(select.columns[0].expr == Sql::Raw("*"@));
    assert(select.from[0] == RelationModel::Table(done.input));
    assert(planned(grammar, parsed, source, columns, crs, backend) == Ok::<
        Seq<char>,
        PlanError<Seq<char>>,
    >(written_with(done.ctes, select)));
}

/// A pipeline that has one step more than `p`: everything that `p` would have read next, as far as
/// a condition holds of it.
pub open spec fn is_narrowed(p: PipelineModel, condition: Sql, after: PipelineModel) -> bool {
    &&& after.ctes.len() == p.ctes.len() + 1
    &&& after.ctes.drop_last() == p.ctes
    &&& after.input == after.ctes.last().name
    &&& after.ctes.last().query.columns.len() == 1
    &&& after.ctes.last().query.columns[0].expr == Sql::Raw("*"@)
    &&& after.ctes.last().query.columns[0].alias is None
    &&& after.ctes.last().query.from == seq![RelationModel::Table(p.input)]
    &&& after.ctes.last().query.filter == Some(condition)
    &&& after.ctes.last().query.limit is None
    &&& after.geometry == p.geometry
    &&& after.crs == p.crs
    &&& after.side == p.side
    &&& after.backend == p.backend
}

/// Whatever actions and outputs a grammar has, the first action of a request, and where it has none
/// the output, finds the rows that the filters of the request keep: a step that keeps them is
/// declared before any other and is what is read next. What fails in an action fails the request.
pub proof fn filters_come_before_actions(
    grammar: Grammar,
    parsed: ParsedModel,
    source: Seq<char>,
    columns: Seq<(Seq<char>, Seq<char>)>,
    geometry: Seq<char>,
    crs: Option<Seq<char>>,
    backend: Backend,
    p: PipelineModel,
    condition: Sql,
)
    requires
        geometry_column(columns) == Some(geometry),
        conditions(
            grammar.filters@,
            PipelineModel::reading(
                source,
                parsed.encoding,
                geometry,
                match crs {
                    Some(name) => name,
                    None => "EPSG:4326"@,
                },
                backend,
            ),
            columns,
            parsed.filters,
            None,
        ) == Ok::<_, PlanError<Seq<char>>>((p, Some(condition))),
    ensures
        exists|filtered: PipelineModel| #[trigger]
            is_narrowed(p, condition, filtered) && match acted(
                grammar.actions@,
                filtered,
                parsed.actions,
                true,
            ) {
                Err(e) => planned_on(grammar, parsed, source, columns, crs, backend) == Err::<
                    Seq<char>,
                    _,
                >(e),
                Ok(done) => planned_on(grammar, parsed, source, columns, crs, backend) matches Ok(
                    text,
                ) ==> exists|ready: PipelineModel, last: PipelineModel, select: SelectModel, at: int|
                    0 <= at < grammar.outputs@.len() && (ready == done || ready == done.lonlat(
                        "output"@,
                    )) && #[trigger] grammar.outputs@[at].output.selects(ready, "output"@, parsed)
                        == Ok::<_, PlanError<Seq<char>>>((last, select)) && text
                        == #[trigger] written_with(last.ctes, select),
            },
{
    let filtered = p.narrowed(Some(condition));
    assert(filtered.ctes.drop_last() =~= p.ctes);
    let query = SelectModel { filter: Some(condition), ..everything(p.input) };
    assert(filtered.ctes.last().query == query);
    assert(query.columns[0].expr == Sql::Raw("*"@));
    assert(query.from =~= seq![RelationModel::Table(p.input)]);
    assert(is_narrowed(p, condition, filtered));
    match acted(grammar.actions@, filtered, parsed.actions, true) {
        Ok(done) => {
            let n = grammar.outputs@.len() as int;
            match output_at(grammar.outputs@, lowered(parsed.extension), Some(parsed), n) {
                Some(at) => {
                    claimed_by_one(grammar.outputs@, lowered(parsed.extension), Some(parsed), n);
                    let output = grammar.outputs@[at].output;
                    let ready = if output.spec_framing().requires_wgs84 && !is_lonlat(done.crs) {
                        done.lonlat("output"@)
                    } else {
                        done
                    };
                    match output.selects(ready, "output"@, parsed) {
                        Ok((last, select)) => {
                            assert(planned_on(grammar, parsed, source, columns, crs, backend)
                                == Ok::<Seq<char>, PlanError<Seq<char>>>(
                                written_with(last.ctes, select),
                            ));
                        },
                        Err(_) => {},
                    }
                },
                None => {},
            }
        },
        Err(_) => {},
    }
}

proof fn claimed_by_one(
    outputs: Seq<Arc<OutputDef>>,
    ext: Seq<char>,
    parsed: Option<ParsedModel>,
    n: int,
)
    requires
        0 <= n <= outputs.len(),
    ensures
        output_at(outputs, ext, parsed, n) matches Some(at) ==> 0 <= at < n
            && outputs[at].output.spec_extensions().contains(ext) && (parsed matches Some(p)
            ==> outputs[at].output.spec_applies(p)) && forall|i: int|
            at < i < n && (#[trigger] outputs[i]).output.spec_extensions().contains(ext) ==> (
            parsed matches Some(p) && !outputs[i].output.spec_applies(p)),
        output_at(outputs, ext, parsed, n) is None ==> forall|i: int|
            0 <= i < n && (#[trigger] outputs[i]).output.spec_extensions().contains(ext) ==> (
            parsed matches Some(p) && !outputs[i].output.spec_applies(p)),
    decreases n,
{
    if n > 0 {
        claimed_by_one(outputs, ext, parsed, n - 1);
    }
}

/// The output that a request gets is the one registered last that has its extension and is meant for
/// it, and it gets one wherever there is any.
pub proof fn the_last_output_meant_for_it_is_asked(
    outputs: Seq<Arc<OutputDef>>,
    ext: Seq<char>,
    parsed: ParsedModel,
)
    ensures
        match output_at(outputs, ext, Some(parsed), outputs.len() as int) {
            Some(at) => {
                &&& 0 <= at < outputs.len()
                &&& outputs[at].output.spec_extensions().contains(ext)
                &&& outputs[at].output.spec_applies(parsed)
                &&& forall|i: int|
                    at < i < outputs.len() ==> !((#[trigger] outputs[i]).output.spec_extensions().contains(
                        ext,
                    ) && outputs[i].output.spec_applies(parsed))
            },
            None => forall|i: int|
                0 <= i < outputs.len() ==> !((#[trigger] outputs[i]).output.spec_extensions().contains(
                    ext,
                ) && outputs[i].output.spec_applies(parsed)),
        },
{
    claimed_by_one(outputs, ext, Some(parsed), outputs.len() as int);
}

/// An action of a grammar turns one pipeline into the next.
pub open spec fn leads_to(
    actions: Seq<ActionDef>,
    asked: ActionModel,
    named: bool,
    p: PipelineModel,
    next: PipelineModel,
) -> bool {
    exists|at: int|
        0 <= at < actions.len() && answers(
            (#[trigger] actions[at]).action.spec_name(),
            actions[at].action.spec_short(),
            asked.name,
        ) && actions[at].action.ran(
            p,
            if named {
                actions[at].action.spec_name()
            } else {
                "step"@
            },
            if named {
                actions[at].action.spec_name()
            } else {
                "x"@
            },
            asked.segments,
        ) == Ok::<_, PlanError<Seq<char>>>(next)
}

/// Every action of a request is run, in turn, on what the one before it left.
pub proof fn every_action_is_run_in_turn(
    actions: Seq<ActionDef>,
    p: PipelineModel,
    asked: Seq<ActionModel>,
    named: bool,
)
    ensures
        acted(actions, p, asked, named) matches Ok(done) ==> exists|states: Seq<PipelineModel>|
            states.len() == asked.len() + 1 && #[trigger] states[0] == p && states.last() == done
                && forall|i: int|
                0 <= i < asked.len() ==> leads_to(
                    actions,
                    #[trigger] asked[i],
                    named,
                    states[i],
                    states[i + 1],
                ),
    decreases asked.len(),
{
    match acted(actions, p, asked, named) {
        Ok(done) => {
            if asked.len() == 0 {
                let states = seq![p];
                assert(states[0] == p && states.last() == done);
            } else {
                let first = asked[0];
                let at = action_at(actions, first.name, 0);
                action_at_bounds(actions, first.name, 0);
                let action = actions[at].action;
                let step = if named {
                    action.spec_name()
                } else {
                    "step"@
                };
                let table = if named {
                    action.spec_name()
                } else {
                    "x"@
                };
                let next = action.ran(p, step, table, first.segments)->Ok_0;
                let rest = asked.skip(1);
                every_action_is_run_in_turn(actions, next, rest, named);
                let later = choose|states: Seq<PipelineModel>|
                    states.len() == rest.len() + 1 && #[trigger] states[0] == next && states.last()
                        == done && forall|i: int|
                        0 <= i < rest.len() ==> leads_to(
                            actions,
                            #[trigger] rest[i],
                            named,
                            states[i],
                            states[i + 1],
                        );
                let states = seq![p] + later;
                assert(leads_to(actions, first, named, p, next)) by {
                    assert(answers(
                        actions[at].action.spec_name(),
                        actions[at].action.spec_short(),
                        first.name,
                    ));
                }
                assert forall|i: int| 0 <= i < asked.len() implies leads_to(
                    actions,
                    #[trigger] asked[i],
                    named,
                    states[i],
                    states[i + 1],
                ) by {
                    if i > 0 {
                        assert(asked[i] == rest[i - 1]);
                        assert(states[i] == later[i - 1] && states[i + 1] == later[i]);
                    } else {
                        assert(states[1] == later[0]);
                    }
                }
                assert(states[0] == p && states.last() == done);
            }
        },
        Err(_) => {},
    }
}

// Plans of any grammar.

/// Where a request on a database begins: with its whole source, in the reference system that is
/// known of it, or else in longitude and latitude.
pub open spec fn first_read(
    parsed: ParsedModel,
    source: Seq<char>,
    geometry: Seq<char>,
    crs: Option<Seq<char>>,
    backend: Backend,
) -> PipelineModel {
    PipelineModel::reading(
        source,
        parsed.encoding,
        geometry,
        match crs {
            Some(name) => name,
            None => "EPSG:4326"@,
        },
        backend,
    )
}

/// A source without a geometry is not planned, and a filter that is not met is reported before any
/// action is looked at.
pub proof fn plans_fail_for_a_reason(
    grammar: Grammar,
    parsed: ParsedModel,
    source: Seq<char>,
    columns: Seq<(Seq<char>, Seq<char>)>,
    crs: Option<Seq<char>>,
    backend: Backend,
    filters: Seq<SegmentModel>,
    format: Format,
    e: PlanError<Seq<char>>,
)
    ensures
        geometry_column(columns) is None ==> planned_on(
            grammar,
            parsed,
            source,
            columns,
            crs,
            backend,
        ) == Err::<Seq<char>, PlanError<Seq<char>>>(PlanError::NoGeometry),
        geometry_column(columns) is None ==> planned(
            grammar,
            parsed,
            source,
            columns,
            crs,
            backend,
        ) == Err::<Seq<char>, PlanError<Seq<char>>>(PlanError::NoGeometry),
        geometry_column(columns) is None ==> built(
            source,
            parsed.encoding,
            filters,
            format,
            columns,
            crs,
            backend,
        ) == Err::<Seq<char>, PlanError<Seq<char>>>(PlanError::NoGeometry),
        geometry_column(columns) matches Some(geometry) ==> {
            &&& conditions(
                grammar.filters@,
                first_read(parsed, source, geometry, crs, backend),
                columns,
                parsed.filters,
                None,
            ) == Err::<(PipelineModel, Option<Sql>), _>(e) ==> planned_on(
                grammar,
                parsed,
                source,
                columns,
                crs,
                backend,
            ) == Err::<Seq<char>, _>(e)
            &&& core_conditions(filters, geometry, columns, None) matches Err(f) ==> built(
                source,
                parsed.encoding,
                filters,
                format,
                columns,
                crs,
                backend,
            ) == Err::<Seq<char>, _>(PlanError::Filter(f))
        },
{
}

/// An action that the grammar has not is reported, and so is an option that the action cannot take,
/// before the action is run; what fails in it fails the request; and actions are run one after the
/// other, those that follow on what those before them left.
pub proof fn actions_follow_each_other(
    actions: Seq<ActionDef>,
    p: PipelineModel,
    first: ActionModel,
    at: int,
    asked: Seq<ActionModel>,
    more: Seq<ActionModel>,
    named: bool,
)
    ensures
        acted(actions, p, Seq::empty(), named) == Ok::<_, PlanError<Seq<char>>>(p),
        (forall|i: int|
            0 <= i < actions.len() ==> (#[trigger] actions[i]).action.spec_name() != first.name
                && actions[i].action.spec_short() != first.name) ==> acted(
            actions,
            p,
            seq![first],
            named,
        ) == Err::<PipelineModel, _>(PlanError::UnknownAction(first.name)),
        0 <= at < actions.len() && (actions[at].action.spec_name() == first.name || (
        actions[at].action.spec_short().len() > 0 && actions[at].action.spec_short() == first.name))
            && (forall|i: int|
            0 <= i < at ==> (#[trigger] actions[i]).action.spec_name() != first.name
                && actions[i].action.spec_short() != first.name) ==> acted(
            actions,
            p,
            seq![first],
            named,
        ) == match segments_fault(
            actions[at].action.spec_options(),
            first.name,
            first.segments,
            0,
        ) {
            Some(e) => Err(e),
            None => actions[at].action.ran(
                p,
                if named {
                    actions[at].action.spec_name()
                } else {
                    "step"@
                },
                if named {
                    actions[at].action.spec_name()
                } else {
                    "x"@
                },
                first.segments,
            ),
        },
        acted(actions, p, asked + more, named) == match acted(actions, p, asked, named) {
            Err(e) => Err(e),
            Ok(done) => acted(actions, done, more, named),
        },
{
    let one = seq![first];
    assert(one[0] == first);
    assert(one.skip(1) =~= Seq::<ActionModel>::empty());
    action_at_bounds(actions, first.name, 0);
    let found = action_at(actions, first.name, 0);
    reveal_with_fuel(acted, 2);
    if forall|i: int|
        0 <= i < actions.len() ==> (#[trigger] actions[i]).action.spec_name() != first.name
            && actions[i].action.spec_short() != first.name {
        if found < actions.len() {
            assert(actions[found].action.spec_name() != first.name);
        }
    }
    if 0 <= at < actions.len() && (actions[at].action.spec_name() == first.name || (
    actions[at].action.spec_short().len() > 0 && actions[at].action.spec_short() == first.name))
        && (forall|i: int|
        0 <= i < at ==> (#[trigger] actions[i]).action.spec_name() != first.name
            && actions[i].action.spec_short() != first.name) {
        assert(found == at) by {
            if found < at {
                assert(actions[found].action.spec_name() != first.name);
            }
            if found > at {
                assert(!answers(
                    actions[at].action.spec_name(),
                    actions[at].action.spec_short(),
                    first.name,
                ));
            }
        }
    }
    acted_in_parts(actions, p, asked, more, named);
}

proof fn acted_in_parts(
    actions: Seq<ActionDef>,
    p: PipelineModel,
    asked: Seq<ActionModel>,
    more: Seq<ActionModel>,
    named: bool,
)
    ensures
        acted(actions, p, asked + more, named) == match acted(actions, p, asked, named) {
            Err(e) => Err(e),
            Ok(done) => acted(actions, done, more, named),
        },
    decreases asked.len(),
{
    let all = asked + more;
    if asked.len() == 0 {
        assert(all =~= more);
    } else {
        assert(all[0] == asked[0]);
        assert(all.skip(1) =~= asked.skip(1) + more);
        let next = asked[0];
        let at = action_at(actions, next.name, 0);
        action_at_bounds(actions, next.name, 0);
        if at < actions.len() {
            let action = actions[at].action;
            let step = if named {
                action.spec_name()
            } else {
                "step"@
            };
            let table = if named {
                action.spec_name()
            } else {
                "x"@
            };
            match action.ran(p, step, table, next.segments) {
                Ok(done) => acted_in_parts(actions, done, asked.skip(1), more, named),
                Err(_) => {},
            }
        }
    }
}

/// Whatever actions and outputs a grammar has, a request ends in what its output selects, from the
/// rows that its actions leave: as they are, or in longitude and latitude where the output asks for
/// that and they are not. Where no output has the extension and is meant for the request, that is
/// reported.
pub proof fn plans_end_in_their_output(
    grammar: Grammar,
    parsed: ParsedModel,
    source: Seq<char>,
    columns: Seq<(Seq<char>, Seq<char>)>,
    geometry: Seq<char>,
    crs: Option<Seq<char>>,
    backend: Backend,
    p: PipelineModel,
    condition: Option<Sql>,
    done: PipelineModel,
    at: int,
)
    requires
        geometry_column(columns) == Some(geometry),
        conditions(
            grammar.filters@,
            first_read(parsed, source, geometry, crs, backend),
            columns,
            parsed.filters,
            None,
        ) == Ok::<_, PlanError<Seq<char>>>((p, condition)),
        acted(grammar.actions@, p.narrowed(condition), parsed.actions, true) == Ok::<
            _,
            PlanError<Seq<char>>,
        >(done),
        -1 <= at < grammar.outputs@.len(),
        at >= 0 ==> grammar.outputs@[at].output.spec_extensions().contains(
            lowered(parsed.extension),
        ) && grammar.outputs@[at].output.spec_applies(parsed),
        forall|i: int|
            at < i < grammar.outputs@.len() ==> !((
            #[trigger] grammar.outputs@[i]).output.spec_extensions().contains(
                lowered(parsed.extension),
            ) && grammar.outputs@[i].output.spec_applies(parsed)),
    ensures
        planned_on(grammar, parsed, source, columns, crs, backend) == if at < 0 {
            Err(PlanError::UnknownOutput(parsed.extension))
        } else {
            let output = grammar.outputs@[at].output;
            let ready = if output.spec_framing().requires_wgs84 && !is_lonlat(done.crs) {
                done.lonlat("output"@)
            } else {
                done
            };
            match output.selects(ready, "output"@, parsed) {
                Err(e) => Err(e),
                Ok((last, select)) => Ok(written_with(last.ctes, select)),
            }
        },
        done.lonlat("output"@).crs == "EPSG:4326"@,
{
    let outputs = grammar.outputs@;
    let ext = lowered(parsed.extension);
    let n = outputs.len() as int;
    claimed_by_one(outputs, ext, Some(parsed), n);
    match output_at(outputs, ext, Some(parsed), n) {
        Some(found) => {
            assert(found == at) by {
                if found > at {
                    assert(outputs[found].output.spec_applies(parsed));
                }
                if found < at {
                    assert(outputs[at].output.spec_extensions().contains(ext));
                }
            }
        },
        None => {
            if at >= 0 {
                assert(outputs[at].output.spec_extensions().contains(ext));
            }
        },
    }
}

} // verus!
