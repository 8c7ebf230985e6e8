use duckxy::ast::{Relation, Select, Selected, SqlExpr};
use duckxy::formats::Format;
use duckxy::grammar::{flag, opt, Action, ActionDef, Grammar, Opt, Param, StageCtx};
use duckxy::sea::render;
use duckxy::sql::{build_sql, plan, Pipeline, PlanError};
use duckxy::url::{parse, Segment};

fn geom_columns() -> Vec<(String, String)> {
    vec![("id".to_string(), "BIGINT".to_string()), ("geom".to_string(), "GEOMETRY".to_string())]
}

fn id_filter() -> Vec<Segment> {
    vec![Segment { name: "id".to_string(), params: vec!["7".to_string()] }]
}

fn raw(sql: &str) -> SqlExpr {
    SqlExpr::Raw(sql.to_string())
}

fn number(n: u8, from: &str) -> Select {
    Select::from(raw(&n.to_string()), Relation::Table(from.to_string()))
}

fn extent(ctx: &mut StageCtx<'_>) -> SqlExpr {
    let extent = ctx.cte_once("extent", |from| Select {
        columns: vec![Selected { expr: raw("ST_Extent(geom)"), alias: Some("e".to_string()) }],
        from: vec![Relation::Table(from.to_string())],
        filter: None,
        limit: None,
    });
    SqlExpr::Qualified(extent, "e".to_string())
}

/// An action that yields one row of what its options ask for.
struct Probe;

impl Action for Probe {
    fn name(&self) -> &'static str {
        "probe"
    }
    fn short(&self) -> &'static str {
        ""
    }
    fn options(&self) -> Vec<Opt> {
        vec![
            flag("bounds", "b"),
            flag("count", "n"),
            flag("width", ""),
            opt("three", "", vec![vec![Param::Column, Param::Operator, Param::Value]]),
            opt("pair", "", vec![vec![Param::Value, Param::Boolean]]),
            opt("flag", "", vec![vec![Param::Boolean]]),
        ]
    }
    fn run(&self, ctx: &mut StageCtx<'_>, segments: &[Segment]) -> Result<(), PlanError> {
        let mut columns = Vec::new();
        for segment in segments {
            let expr = match segment.name.as_str() {
                "bounds" => extent(ctx),
                "count" => raw("COUNT(*)"),
                "width" => SqlExpr::Template("ST_XMax($1)".to_string(), vec![extent(ctx)]),
                "three" => raw(&segment.params.join("|")),
                _ => raw("1"),
            };
            columns.push(Selected { expr, alias: Some(segment.name.clone()) });
        }
        let mut from = vec![Relation::Table(ctx.data())];
        if let Some(extent) = ctx.cte("extent") {
            from.push(Relation::Table(extent));
        }
        ctx.step(Select { columns, from, filter: None, limit: None });
        Ok(())
    }
}

fn probe_grammar() -> Grammar {
    let mut g = Grammar::built_in();
    let def = ActionDef { action: Box::new(Probe) };
    assert!(g.check_action(&def).is_none());
    g.register_action(def);
    g
}

fn planned(url: &str) -> String {
    let grammar = probe_grammar();
    let parsed = parse(url, &grammar).unwrap();
    plan(&grammar, &parsed, "/x.geojson", &geom_columns(), None).unwrap()
}

#[test]
fn a_request_with_no_action_is_the_feature_pipeline() {
    let out = planned("/@dataset:x.geojson");
    assert!(out.contains("ST_AsGeoJSON"), "{out}");
    assert!(!out.contains("COUNT(*)"), "{out}");
}

#[test]
fn an_action_replaces_the_feature_select_with_its_own() {
    let out = planned("/@dataset:x/@probe/count.json");
    assert!(out.contains("COUNT(*) AS \"count\""), "{out}");
    assert!(!out.contains("ST_AsGeoJSON"), "an action must skip the geojson conversion: {out}");
}

#[test]
fn option_expressions_arrive_in_url_order_under_canonical_names() {
    let out = planned("/@dataset:x/@probe/n,b.json");
    let count_at = out.find("AS \"count\"").expect("count");
    let bounds_at = out.find("AS \"bounds\"").expect("bounds");
    assert!(count_at < bounds_at, "aliases must not reorder the parts: {out}");
}

#[test]
fn a_fragment_may_add_a_side_table_that_options_share() {
    let out = planned("/@dataset:x/@probe/b,width.json");
    assert_eq!(out.matches("\"x_extent\" AS").count(), 1, "{out}");
    assert!(out.contains("\"x_extent\""), "the side table must be joined, not dangling: {out}");
}

#[test]
fn every_option_sees_the_same_relation() {
    let out = planned("/@dataset:x,id:7/@probe/count,bounds,width.json");
    assert_eq!(out.matches("FROM \"step_1\"").count(), 2, "options disagreed about the input: {out}");
    assert_eq!(out.matches("\"x_extent\" AS").count(), 1, "the shared side table was built twice: {out}");
}

#[test]
fn a_fragment_receives_its_parameters_in_order() {
    let out = planned("/@dataset:x/@probe/three:name:eq:foo.json");
    assert!(out.contains("name|eq|foo AS \"three\""), "parameters arrived out of order: {out}");
}

#[test]
fn a_bad_parameter_reports_its_own_position() {
    let grammar = probe_grammar();
    let columns = vec![("geom".to_string(), "GEOMETRY".to_string())];
    let parsed = parse("/@dataset:x/@probe/pair:ok:banana.json", &grammar).unwrap();
    let err = plan(&grammar, &parsed, "/x.geojson", &columns, None).unwrap_err();
    let PlanError::Param(typed) = err else { panic!("the kind must survive") };
    assert_eq!(typed.at, 1, "the wrong parameter position was reported");
    assert_eq!(typed.got, "banana");
}

#[test]
fn an_action_still_reprojects_a_source_that_is_not_wgs84() {
    let grammar = probe_grammar();
    let parsed = parse("/@dataset:x/@probe/count.json", &grammar).unwrap();
    let out = plan(&grammar, &parsed, "/x.geojson", &geom_columns(), Some("EPSG:25832")).unwrap();
    assert!(out.contains("ST_Transform"), "an action skipped reprojection: {out}");
    assert!(out.find("ST_Transform") < out.find("COUNT(*)"), "reprojection must precede the action: {out}");
}

#[test]
fn a_filter_applies_before_the_action_runs() {
    let out = planned("/@dataset:x,id:7/@probe/count.json");
    assert!(out.contains("\"step_1\" AS (SELECT * FROM \"source\" WHERE"), "{out}");
    assert!(out.contains("COUNT(*) AS \"count\" FROM \"step_1\""), "the action must read the filtered rows: {out}");
}

#[test]
fn a_bad_action_parameter_surfaces_as_a_typed_error() {
    let grammar = probe_grammar();
    let columns = vec![("geom".to_string(), "GEOMETRY".to_string())];
    let parsed = parse("/@dataset:x/@probe/flag:banana.json", &grammar).unwrap();
    let err = plan(&grammar, &parsed, "/x.geojson", &columns, None).unwrap_err();
    let PlanError::Param(typed) = err else { panic!("the kind must survive") };
    assert_eq!(typed.expected, Param::Boolean);
    assert_eq!(typed.got, "banana");
}

#[test]
fn a_step_names_itself_and_becomes_the_input() {
    let columns = geom_columns();
    let mut p = Pipeline::source("/x.geojson", "UTF-8", &columns).unwrap();
    p.step(number(1, &p.input()));
    p.step(number(2, &p.input()));
    let out = p.finish_raw();
    assert!(out.contains("\"step_1\" AS (SELECT 1 FROM \"source\")"), "{out}");
    assert!(out.contains("\"step_2\" AS (SELECT 2 FROM \"step_1\")"), "{out}");
    assert!(out.trim_end().ends_with("SELECT * FROM \"step_2\""), "{out}");
}

#[test]
fn a_side_table_is_namespaced_shared_and_does_not_advance_the_input() {
    let columns = geom_columns();
    let mut p = Pipeline::source("/x.geojson", "UTF-8", &columns).unwrap();
    assert!(p.cte("extent").is_none());
    p.cte_once("extent", |from| number(1, from));
    p.cte_once("extent", |_| panic!("a repeated side table must not be rebuilt"));
    assert!(p.cte("extent").is_some());
    let out = p.finish_raw();
    assert_eq!(out.matches("\"x_extent\" AS").count(), 1, "the side table was emitted twice: {out}");
    assert!(out.trim_end().ends_with("SELECT * FROM \"source\""), "a side table advanced the input: {out}");
}

#[test]
fn a_side_table_lookup_names_the_alias_built_over_the_current_input() {
    let columns = geom_columns();
    let mut p = Pipeline::source("/x.geojson", "UTF-8", &columns).unwrap();
    p.cte_once("extent", |from| number(1, from));
    p.filter(&id_filter(), &columns).unwrap();
    assert!(p.cte("extent").is_none(), "a side table from an earlier stage must not be reported as live");
    p.cte_once("extent", |from| number(2, from));

    let live = p.cte("extent").expect("a side table was built over the current input");
    let out = render(&Select::all(&live));
    assert!(out.ends_with("FROM \"x_extent_1\""), "the lookup named the stale alias: {out}");
}

#[test]
fn a_side_table_never_reuses_an_alias_another_one_took() {
    for names in [["a", "a", "a_1"], ["a_1", "a", "a"]] {
        let columns = geom_columns();
        let mut p = Pipeline::source("/x.geojson", "UTF-8", &columns).unwrap();
        for (at, name) in names.iter().enumerate() {
            if at > 0 {
                p.filter(&id_filter(), &columns).unwrap();
            }
            p.cte_once(name, |from| number(1, from));
            assert!(p.cte(name).is_some(), "{name} was built but is not live");
        }
        let out = p.finish_raw();
        let mut declared: Vec<&str> = out
            .match_indices("\" AS (")
            .map(|(at, _)| {
                let open = out[..at].rfind('"').expect("a quoted cte name");
                &out[open + 1..at]
            })
            .collect();
        let total = declared.len();
        declared.sort_unstable();
        declared.dedup();
        assert_eq!(declared.len(), total, "a cte name was declared twice: {out}");
    }
}

#[test]
fn a_step_never_takes_the_name_of_a_side_table() {
    let columns = geom_columns();
    let mut p = Pipeline::source("/x.geojson", "UTF-8", &columns).unwrap();
    p.cte_once_for("process", "1", |from| number(1, from));
    p.step_for("process", number(2, &p.input()));
    let out = p.finish_raw();
    assert!(out.contains("\"process_1\" AS (SELECT 1 FROM \"source\")"), "{out}");
    assert!(out.contains("\"process_1_1\" AS (SELECT 2 FROM \"source\")"), "{out}");
}

#[test]
fn a_side_table_is_not_shared_across_stages() {
    let columns = geom_columns();
    let mut p = Pipeline::source("/x.geojson", "UTF-8", &columns).unwrap();
    p.cte_once("extent", |from| number(1, from));
    p.filter(&id_filter(), &columns).unwrap();
    p.cte_once("extent", |from| number(2, from));
    let out = p.finish_raw();
    assert!(out.contains("\"x_extent\" AS (SELECT 1 FROM \"source\")"), "{out}");
    assert!(out.contains("\"x_extent_1\" AS (SELECT 2 FROM \"step_1\")"), "a stale side table was reused: {out}");
}

#[test]
fn a_side_table_reads_from_the_current_input() {
    let columns = geom_columns();
    let mut p = Pipeline::source("/x.geojson", "UTF-8", &columns).unwrap();
    p.filter(&id_filter(), &columns).unwrap();
    p.cte_once("extent", |from| number(1, from));
    let out = p.finish_raw();
    assert!(out.contains("\"x_extent\" AS (SELECT 1 FROM \"step_1\")"), "{out}");
}

#[test]
fn finish_raw_skips_the_geojson_conversion() {
    let columns = geom_columns();
    let mut p = Pipeline::source("/x.geojson", "UTF-8", &columns).unwrap();
    p.step(number(1, &p.input()));
    assert_eq!(
        p.finish_raw(),
        "WITH \"source\" AS (SELECT * FROM ST_Read('/x.geojson', open_options=list_value('ENCODING=UTF-8')) AS \"src\") , \"step_1\" AS (SELECT 1 FROM \"source\") SELECT * FROM \"step_1\""
    );
}

#[test]
fn reprojection_takes_the_step_after_the_filter() {
    let columns = geom_columns();
    let out =
        build_sql("/x.geojson", "UTF-8", &id_filter(), Format::GeoJson, &columns, Some("EPSG:25832")).unwrap();
    assert!(out.contains("\"step_2\" AS (SELECT * REPLACE (ST_Transform("), "{out}");
    assert!(out.contains("FROM \"step_1\""), "{out}");
    assert!(out.contains("\"step_3\" AS (SELECT * REPLACE (ST_AsGeoJSON("), "{out}");
    assert!(out.contains("to_json(\"step_3\")"), "the feature select read the wrong cte: {out}");
    assert!(out.trim_end().ends_with("FROM \"step_3\""), "the feature select read the wrong cte: {out}");
}

#[test]
fn a_crs_already_in_wgs84_adds_no_reprojection_step() {
    let columns = geom_columns();
    let out = build_sql("/x.geojson", "UTF-8", &[], Format::GeoJson, &columns, Some("EPSG:4326")).unwrap();
    assert!(!out.contains("ST_Transform"), "{out}");
    assert!(out.contains("\"step_1\" AS (SELECT * REPLACE (ST_AsGeoJSON("), "a pass-through step was added: {out}");
}

#[test]
fn a_reference_system_is_known_by_its_own_spelling() {
    for crs in ["EPSG:4326", "OGC:CRS84", "CRS84", "crs84"] {
        let out = build_sql("/x.geojson", "UTF-8", &[], Format::GeoJson, &geom_columns(), Some(crs)).unwrap();
        assert!(!out.contains("ST_Transform"), "{crs}: {out}");
    }
    for crs in ["epsg:4326", "ogc:crs84", "Crs84", "EPSG:25832"] {
        let out = build_sql("/x.geojson", "UTF-8", &[], Format::GeoJson, &geom_columns(), Some(crs)).unwrap();
        assert!(out.contains(&format!("ST_Transform(\"geom\", '{crs}', 'EPSG:4326', always_xy := true)")), "{out}");
    }
}

#[test]
fn build_sql_without_a_geometry_column_errors_rather_than_panics() {
    let columns = vec![("id".to_string(), "BIGINT".to_string())];
    let err = build_sql("/x.geojson", "UTF-8", &[], Format::GeoJson, &columns, None).unwrap_err();
    assert!(matches!(err, PlanError::NoGeometry), "{err:?}");
}

#[test]
fn an_unfiltered_request_adds_no_filter_step() {
    let columns = vec![("name".to_string(), "VARCHAR".to_string()), ("geom".to_string(), "GEOMETRY".to_string())];
    let out = build_sql("/x.geojson", "UTF-8", &[], Format::GeoJson, &columns, None).unwrap();
    assert!(!out.contains("WHERE"), "an empty filter list added a predicate: {out}");
}

#[test]
fn a_filtered_request_is_the_first_numbered_step() {
    let columns = vec![("id".to_string(), "BIGINT".to_string()), ("geom".to_string(), "GEOMETRY".to_string())];
    let filters = vec![Segment { name: "id".to_string(), params: vec!["7".to_string()] }];
    let out = build_sql("/x.geojson", "UTF-8", &filters, Format::GeoJson, &columns, None).unwrap();
    assert!(out.contains("\"step_1\" AS (SELECT * FROM \"source\" WHERE"), "{out}");
    assert!(out.contains("\"id\" = (7)"), "{out}");
}

#[test]
fn the_whole_statement_of_a_request() {
    let out = build_sql("/x.geojson", "UTF-8", &[], Format::Json, &geom_columns(), Some("OGC:CRS84")).unwrap();
    assert_eq!(
        out,
        "WITH \"source\" AS (SELECT * FROM ST_Read('/x.geojson', open_options=list_value('ENCODING=UTF-8')) AS \"src\") , \"step_1\" AS (SELECT * REPLACE (ST_AsGeoJSON(\"geom\") AS \"geom\") FROM \"source\") SELECT CAST(json_object('type', 'Feature', 'properties', json_merge_patch(to_json(\"step_1\"), json_object('geom', NULL)), 'geometry', CAST(\"geom\" AS JSON)) AS VARCHAR) FROM \"step_1\""
    );
}

#[test]
fn an_action_that_is_not_registered_is_reported() {
    let grammar = probe_grammar();
    let parsed = parse("/@dataset:x/@probe/count.json", &grammar).unwrap();
    let err = plan(&Grammar::built_in(), &parsed, "/x.geojson", &geom_columns(), None).unwrap_err();
    assert_eq!(err.message(), "action \"probe\" is not registered in this grammar");
}
