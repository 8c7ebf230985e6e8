use duckxy::ast::{slots_are_sound, Relation, Select, SqlExpr};
use duckxy::backend::{Backend, SqlFn, SqlOp};
use duckxy::filters::{
    columns_are_sound, condition, core_condition, filter, CoreFilter, FilterCtx, FilterError, FilterFn, FilterRule,
};
use duckxy::formats::geojson;
use duckxy::grammar::{Grammar, Param};
use duckxy::sea::render;
use duckxy::sql::{Pipeline, PlanError};
use duckxy::url::Segment;
use std::sync::Arc;

type Columns = Vec<(String, String)>;

fn cols(columns: &[(&str, &str)]) -> Columns {
    columns.iter().map(|(name, kind)| (name.to_string(), kind.to_string())).collect()
}

fn columns() -> Columns {
    cols(&[("id", "BIGINT"), ("name", "VARCHAR"), ("geom", "GEOMETRY")])
}

fn pipeline_for(cols: &[(String, String)]) -> Pipeline {
    Pipeline::source("/x.geojson", "UTF-8", cols).unwrap()
}

fn held(filters: &[Segment], cols: &[(String, String)]) -> Result<Option<SqlExpr>, FilterError> {
    let mut pipeline = pipeline_for(cols);
    let mut ctx = FilterCtx::new(&mut pipeline, cols);
    match condition(&Grammar::built_in(), &mut ctx, filters) {
        Ok(expr) => Ok(expr),
        Err(PlanError::Filter(e)) => Err(e),
        Err(e) => panic!("a core filter reports a FilterError, not {e:?}"),
    }
}

fn named(name: &str, params: &[&str]) -> Segment {
    Segment { name: name.to_string(), params: params.iter().map(|p| p.to_string()).collect() }
}

fn seg(params: &[&str]) -> Segment {
    named("id", params)
}

fn where_clause(expr: SqlExpr) -> String {
    let mut select = Select::from(SqlExpr::Raw("1".to_string()), Relation::Table("t".to_string()));
    select.from.clear();
    render(&select.keeping(expr))
}

fn rendered(filters: &[Segment], cols: &[(String, String)]) -> String {
    where_clause(held(filters, cols).unwrap().unwrap())
}

fn sql(filters: &[Segment]) -> String {
    rendered(filters, &columns())
}

fn text_sql(filters: &[Segment]) -> String {
    rendered(filters, &cols(&[("id", "VARCHAR"), ("geom", "GEOMETRY")]))
}

#[test]
fn every_filter_the_core_grammar_registers_is_executable() {
    let columns = columns();
    for def in &Grammar::built_in().filters {
        for shape in &def.shapes {
            let segment = Segment { name: def.name.to_string(), params: vec!["name".to_string(); shape.len()] };
            let outcome = held(&[segment], &columns);
            assert!(
                !matches!(outcome, Err(FilterError::UnknownFilter(_))),
                "{:?} is registered but condition cannot execute it",
                def.name
            );
        }
    }
}

#[test]
fn every_geometry_predicate_is_written_out() {
    for (name, value, expected) in [
        ("type", "Point", "CAST(ST_GeometryType(\"geom\") AS VARCHAR) = 'POINT'"),
        ("type", "linestring", "CAST(ST_GeometryType(\"geom\") AS VARCHAR) = 'LINESTRING'"),
        ("valid", "true", "ST_IsValid(\"geom\") = TRUE"),
        ("valid", "0", "ST_IsValid(\"geom\") = FALSE"),
        ("empty", "1", "ST_IsEmpty(\"geom\") = TRUE"),
        ("simple", "FALSE", "ST_IsSimple(\"geom\") = FALSE"),
    ] {
        let out = sql(&[named(name, &[value])]);
        assert_eq!(out, format!("SELECT 1 WHERE {expected}"));
    }
    let out = sql(&[named("closed", &["true"])]);
    assert!(out.contains("IN ('LINESTRING', 'MULTILINESTRING')"), "{out}");
    assert!(out.contains("ST_IsClosed(\"geom\")") && out.ends_with("= TRUE"), "{out}");
}

#[test]
fn a_geometry_predicate_refuses_a_value_it_cannot_read() {
    for (name, value, expected) in [
        ("valid", "yes", FilterError::NotABoolean("yes".to_string())),
        ("empty", "", FilterError::NotABoolean(String::new())),
        ("simple", "2", FilterError::NotABoolean("2".to_string())),
        ("closed", "maybe", FilterError::NotABoolean("maybe".to_string())),
        ("type", "Banana", FilterError::UnknownGeometryType("Banana".to_string())),
        ("type", "ST_Point", FilterError::UnknownGeometryType("ST_Point".to_string())),
    ] {
        assert_eq!(held(&[named(name, &[value])], &columns()).unwrap_err(), expected);
    }
    for name in ["type", "valid", "empty", "simple", "closed"] {
        assert_eq!(
            held(&[named(name, &[])], &columns()).unwrap_err(),
            FilterError::BadParams(name.to_string())
        );
    }
}

#[test]
fn every_text_operator_is_written_out() {
    let cols = cols(&[("v", "VARCHAR"), ("geom", "GEOMETRY")]);
    let text = "CAST(\"v\" AS VARCHAR)";
    for (params, expected) in [
        (vec!["v", "eq", "Alpha"], format!("{text} = 'Alpha'")),
        (vec!["v", "ne", "Alpha"], format!("NOT {text} = 'Alpha'")),
        (vec!["v", "ieq", "alpha"], format!("LOWER({text}) = LOWER('alpha')")),
        (vec!["v", "isw", "al"], format!("LOWER({text}) LIKE LOWER('al%') ESCAPE '\\'")),
        (vec!["v", "iew", "HA"], format!("LOWER({text}) LIKE LOWER('%HA') ESCAPE '\\'")),
        (vec!["v", "ict", "LPH"], format!("LOWER({text}) LIKE LOWER('%LPH%') ESCAPE '\\'")),
        (vec!["v", "gt", "A"], format!("{text} > 'A'")),
        (vec!["v", "gte", "A"], format!("{text} >= 'A'")),
        (vec!["v", "lt", "Z"], format!("{text} < 'Z'")),
        (vec!["v", "lte", "Z"], format!("{text} <= 'Z'")),
        (
            vec!["v", "in", "(Alpha,Beta)"],
            format!("{text} IN (SELECT \"v\" FROM parexp('(Alpha,Beta)') AS \"expanded\")"),
        ),
        (vec!["v", "nin", "(Beta)"], format!("NOT {text} = 'Beta'")),
        (vec!["v", "notnull"], "\"v\" IS NOT NULL".to_string()),
        (vec!["v", "null"], "\"v\" IS NULL".to_string()),
        (vec!["v", "null", "ignored"], "\"v\" IS NULL".to_string()),
    ] {
        let out = rendered(&[named("prop", &params)], &cols).replace('(', "").replace(')', "");
        let expected = format!("SELECT 1 WHERE {expected}").replace('(', "").replace(')', "");
        assert_eq!(out, expected, "{params:?}");
    }
}

#[test]
fn a_pattern_takes_its_value_as_it_is() {
    let cols = cols(&[("v", "VARCHAR"), ("geom", "GEOMETRY")]);
    for (operator, pattern) in [("sw", "a\\\\_1\\\\%%"), ("ew", "%a\\\\_1\\\\%"), ("ct", "%a\\\\_1\\\\%%")] {
        let out = rendered(&[named("prop", &["v", operator, "a_1%"])], &cols);
        assert!(out.contains(pattern), "{out}");
        assert!(out.contains("ESCAPE"), "{out}");
    }
    let out = rendered(&[named("prop", &["v", "isw", "a\\b"])], &cols);
    assert!(out.contains("a\\\\\\\\b%"), "{out}");
}

#[test]
fn a_number_is_compared_by_value() {
    let cols = cols(&[("v", "DECIMAL(18,3)"), ("geom", "GEOMETRY")]);
    for (params, expected) in [
        (vec!["v", "1.50"], "\"v\" = (1.50)"),
        (vec!["v", "gt", "-1"], "\"v\" > (-1)"),
        (vec!["v", "in", "(3..4)"], "\"v\" BETWEEN 3 AND 4"),
    ] {
        let out = rendered(&[named("prop", &params)], &cols);
        assert_eq!(out, format!("SELECT 1 WHERE {expected}"));
    }
    let out = rendered(&[named("prop", &["v", "nin", "(1,2.5)"])], &cols);
    assert!(out.contains("SELECT TRY_CAST(\"v\" AS DECIMAL(18,3)) FROM parexp('(1,2.5)') AS \"expanded\""), "{out}");
    assert!(out.contains("WHERE (TRY_CAST(\"v\" AS DECIMAL(18,3))) IS NOT NULL"), "{out}");
}

#[test]
fn every_numeric_type_is_one() {
    for kind in [
        "TINYINT", "SMALLINT", "INTEGER", "BIGINT", "HUGEINT", "UTINYINT", "USMALLINT", "UINTEGER", "UBIGINT",
        "UHUGEINT", "DECIMAL(38,0)", "NUMERIC", "FLOAT", "DOUBLE", "REAL",
    ] {
        let cols = cols(&[("v", kind), ("geom", "GEOMETRY")]);
        let out = rendered(&[named("prop", &["v", "gt", "1"])], &cols);
        assert_eq!(out, "SELECT 1 WHERE \"v\" > (1)", "{kind}");
    }
}

#[test]
fn a_column_that_merely_contains_a_number_is_not_numeric() {
    for kind in ["DECIMAL(18,3)[]", "BIGINT[]", "STRUCT(a DECIMAL(18,3))", "bigint"] {
        let cols = cols(&[("v", kind), ("geom", "GEOMETRY")]);
        let out = rendered(&[named("prop", &["v", "eq", "1"])], &cols);
        assert_eq!(out, "SELECT 1 WHERE CAST(\"v\" AS VARCHAR) = '1'", "{kind}");
    }
}

struct Nearby;

impl FilterFn for Nearby {
    fn condition(&self, ctx: &mut FilterCtx<'_>, params: &[String]) -> Result<SqlExpr, PlanError> {
        ctx.cte_once("reach", |from| {
            Select::from(SqlExpr::Raw("ST_Union_Agg(geom)".to_string()), Relation::Table(from.to_string()))
        });
        let reach = Select::all("filter_reach");
        let measured = match ctx.call("as_text", vec![ctx.geom()]) {
            Ok(measured) => measured,
            Err(e) => return Err(PlanError::Operation(e)),
        };
        Ok(SqlExpr::Template(
            format!("ST_Whatever($1, $2, '{}', {})", ctx.crs(), params[0]),
            vec![measured, SqlExpr::Query(Box::new(reach))],
        ))
    }
}

struct AsText;

impl SqlFn for AsText {
    fn build(&self, mut args: Vec<SqlExpr>) -> SqlExpr {
        SqlExpr::Cast(Box::new(args.remove(0)), "VARCHAR".to_string())
    }
}

#[test]
fn a_filter_core_never_named_can_be_registered() {
    let mut g = Grammar::default();
    let shapes = vec![vec![Param::Value]];
    assert!(g.check_filter("nearby", "nb", &shapes).is_none());
    g.register_filter(filter("nearby", "nb", shapes, FilterRule { rule: Box::new(Nearby) }));
    g.register_output(geojson());
    let cols = columns();
    let backend = Backend::default().extend(|v| {
        v.replace(SqlOp { name: "as_text", op: Box::new(AsText) });
    });
    let mut pipeline = pipeline_for(&cols).with_crs(None).with_backend(Arc::new(backend));
    let segment = named("nearby", &["500"]);
    let expr = {
        let mut ctx = FilterCtx::new(&mut pipeline, &cols);
        condition(&g, &mut ctx, &[segment]).unwrap().unwrap()
    };
    assert!(pipeline.cte_of("filter", "reach").is_some(), "the side table was not kept on the pipeline");
    let input = pipeline.input();
    let rendered = pipeline.finish_with(Select::all(&input).keeping(expr));
    assert!(rendered.contains("ST_Whatever"), "the registered filter did not reach the sql: {rendered}");
    assert!(rendered.contains("EPSG:4326"), "the filter could not read the pipeline crs: {rendered}");
    assert!(
        rendered.contains("CAST(\"geom\" AS VARCHAR)"),
        "the filter could not reach the vocabulary: {rendered}"
    );
    assert!(
        rendered.contains("\"filter_reach\" AS (SELECT ST_Union_Agg(geom)"),
        "the side table was not built from the filter's own query: {rendered}"
    );
}

#[test]
fn no_filters_is_no_condition() {
    assert!(held(&[], &columns()).unwrap().is_none());
}

#[test]
fn every_value_is_compared_as_exact_text() {
    for (value, literal) in [
        ("7", "'7'"),
        ("CA", "'CA'"),
        ("02257", "'02257'"),
        ("inf", "'inf'"),
        ("NaN", "'NaN'"),
        ("1e400", "'1e400'"),
        ("9007199254740993", "'9007199254740993'"),
    ] {
        let out = text_sql(&[seg(&[value])]);
        assert!(out.contains(&format!("CAST(\"id\" AS VARCHAR) = {literal}")), "{out}");
        assert!(!out.contains("TRY_CAST"), "a value took a numeric path: {out}");
        assert!(!out.contains(" OR "), "an id lookup must match one spelling only: {out}");
    }
}

#[test]
fn a_numeric_column_refuses_a_value_that_is_not_a_number() {
    for value in ["CA", "' OR 1=1 --", "1e400", "(a,b)"] {
        let outcome = held(&[seg(&[value])], &columns());
        assert!(matches!(outcome, Err(FilterError::NotANumber(_))), "{outcome:?}");
    }
}

#[test]
fn tilde_quoting_is_stripped() {
    for (value, needle) in [
        ("~Armagh City, Banbridge~", "'Armagh City, Banbridge'"),
        ("~a:b~", "'a:b'"),
        ("plain", "'plain'"),
    ] {
        assert!(text_sql(&[seg(&[value])]).contains(needle));
    }
}

#[test]
fn id_finds_its_column_case_insensitively() {
    for (cols, found) in [
        (cols(&[("fid", "BIGINT"), ("geom", "GEOMETRY")]), true),
        (cols(&[("GID", "BIGINT"), ("geom", "GEOMETRY")]), true),
        (cols(&[("ObjectID", "BIGINT"), ("geom", "GEOMETRY")]), true),
        (cols(&[("name", "VARCHAR"), ("geom", "GEOMETRY")]), false),
    ] {
        let outcome = held(&[seg(&["1"])], &cols);
        assert_eq!(outcome.is_ok(), found, "{outcome:?}");
        if !found {
            assert_eq!(outcome.unwrap_err(), FilterError::NoIdColumn);
        }
    }
}

#[test]
fn id_prefers_id_over_the_other_candidates() {
    let cols = cols(&[("fid", "BIGINT"), ("id", "BIGINT"), ("geom", "GEOMETRY")]);
    let out = rendered(&[seg(&["1"])], &cols);
    assert!(out.contains("\"id\""), "{out}");
    assert!(!out.contains("\"fid\""), "{out}");
}

#[test]
fn two_filters_are_and_chained() {
    let out = sql(&[seg(&["1"]), seg(&["2"])]);
    assert!(out.contains(" AND "), "{out}");
}

#[test]
fn id_rejects_a_bad_parameter_count() {
    for params in [vec![], vec!["a", "b", "c"]] {
        assert_eq!(held(&[seg(&params)], &columns()).unwrap_err(), FilterError::BadParams("id".to_string()));
    }
}

#[test]
fn id_accepts_the_same_operators_as_prop() {
    for (params, needle) in [
        (vec!["gte", "500"], "\"id\" >= (500)"),
        (vec!["lt", "1000"], "\"id\" < (1000)"),
        (vec!["in", "(500..1000)"], "BETWEEN 500 AND 1000"),
        (vec!["(50..100)"], "BETWEEN 50 AND 100"),
        (vec!["ct", "ab"], "LIKE"),
    ] {
        let out = sql(&[seg(&params)]);
        assert!(out.contains(needle), "{out}");
    }
}

#[test]
fn a_group_expands_through_the_table_function() {
    for value in ["(1,2)", "(a,b)", "file-(1..3).txt", "prefix-(a,b)", "(a..d)", "(1..10..2)"] {
        let out = text_sql(&[seg(&[value])]);
        assert!(out.contains("parexp("), "{out}");
        assert!(!out.contains("BETWEEN"), "{out}");
        assert!(out.len() < 400, "the expansion leaked into sql text, {} bytes", out.len());
    }
}

#[test]
fn a_pure_range_on_a_numeric_column_becomes_between() {
    let out = sql(&[seg(&["(1..100)"])]);
    assert!(out.contains("BETWEEN 1 AND 100"), "{out}");
    assert!(!out.contains("parexp"), "a pure range on a numeric column must not expand: {out}");
    assert!(!out.contains("CAST"), "the column should not be cast: {out}");
}

#[test]
fn a_range_past_the_f64_mantissa_keeps_every_digit() {
    let out = sql(&[seg(&["(9007199254740993..9007199254740993)"])]);
    assert!(out.contains("9007199254740993"), "the bound was rounded: {out}");
}

#[test]
fn a_padded_signed_or_fractional_range_does_not_take_the_numeric_path() {
    for value in ["(01..01)", "(0.5..1.5)", "(-5..10)", "(+5..10)"] {
        match held(&[seg(&[value])], &columns()) {
            Ok(expr) => {
                let out = where_clause(expr.unwrap());
                assert!(!out.contains("BETWEEN"), "{out}");
            }
            Err(e) => assert!(matches!(e, FilterError::NotANumber(_)), "{e:?}"),
        }
    }
}

#[test]
fn an_unknown_name_is_unknown_whatever_it_carries() {
    for params in [vec!["a"], vec!["a", "b"], vec![]] {
        let outcome = held(&[named("zzz", &params)], &columns());
        assert_eq!(outcome.unwrap_err(), FilterError::UnknownFilter("zzz".to_string()));
    }
}

#[test]
fn an_unknown_filter_name_is_reported() {
    assert_eq!(
        held(&[named("zzz", &["1"])], &columns()).unwrap_err(),
        FilterError::UnknownFilter("zzz".to_string())
    );
}

#[test]
fn a_hostile_value_is_written_as_data() {
    for value in ["' OR 1=1 --", "x'); DROP TABLE t; --", "1' UNION SELECT 'x"] {
        let out = text_sql(&[named("id", &["eq", &format!("~{value}~")])]);
        assert!(out.ends_with(&format!("= E'{}'", value.replace('\'', "\\'"))), "{out}");
    }
}

#[test]
fn each_error_of_a_filter_says_what_is_wrong() {
    for (segment, message) in [
        (named("prop", &[]), "filter has the wrong number of parameters: prop"),
        (named("prop", &["nosuch", "1"]), "source has no column: nosuch"),
        (named("prop", &["name", "zzz", "1"]), "unknown property operator: zzz"),
        (named("prop", &["id", "gt", "abc"]), "a numeric column needs a numeric value: abc"),
        (
            named("prop", &["name", "gt", "(a,b)"]),
            "this operator takes a single value, not a pattern: (a,b)",
        ),
        (
            named("prop", &["name", "(1..10001)"]),
            "pattern expands past the limit of 10000 values: (1..10001)",
        ),
        (named("valid", &["x"]), "this filter takes true or false: x"),
        (
            named("type", &["x"]),
            "unknown geometry type: x, expected one of: POINT, LINESTRING, POLYGON, MULTIPOINT, \
             MULTILINESTRING, MULTIPOLYGON, GEOMETRYCOLLECTION",
        ),
        (named("zzz", &["x"]), "unknown filter: zzz"),
    ] {
        assert_eq!(held(&[segment], &columns()).unwrap_err().message(), message);
    }
    assert_eq!(
        FilterError::<String>::NoIdColumn.message(),
        "source has no id column, expected one of: id, fid, gid, objectid"
    );
}

#[test]
fn the_built_in_grammar_and_the_core_filters_agree() {
    let columns = columns();
    for segment in [seg(&["7"]), named("prop", &["name", "sw", "a"]), named("closed", &["1"]), named("zzz", &["1"])] {
        let by_grammar = held(&[segment.clone()], &columns).map(|e| e.map(where_clause));
        let by_core = core_condition(&[segment], &columns, "geom").map(|e| e.map(where_clause));
        assert_eq!(by_grammar, by_core);
    }
    assert!(CoreFilter::named("id").is_some() && CoreFilter::named("nosuch").is_none());
}

#[test]
fn a_filter_that_is_only_named_does_nothing() {
    let mut g = Grammar::default();
    g.filter("within", "", vec![vec![Param::Value]]);
    let cols = columns();
    let mut pipeline = pipeline_for(&cols);
    let mut ctx = FilterCtx::new(&mut pipeline, &cols);
    assert!(matches!(
        condition(&g, &mut ctx, &[named("within", &["1"])]),
        Err(PlanError::Filter(FilterError::UnknownFilter(name))) if name == "within"
    ));
}

#[test]
fn a_type_of_a_column_is_sound_unless_it_asks_for_arguments_of_its_own() {
    assert!(columns_are_sound(&columns()));
    assert!(columns_are_sound(&cols(&[("price", "DECIMAL(18,3)"), ("odd", "STRUCT($2)")])));
    assert!(!columns_are_sound(&cols(&[("price", "DECIMAL($2)")])));
    assert!(slots_are_sound("$1 || ':' || $2", 2));
    assert!(!slots_are_sound("$1 || ':' || $2", 1));
}

#[test]
fn an_odd_type_matters_only_where_a_list_is_cast_to_it() {
    let odd = cols(&[("id", "DECIMAL($2)"), ("geom", "GEOMETRY")]);
    assert!(!columns_are_sound(&odd));
    assert_eq!(rendered(&[seg(&["7"])], &odd), "SELECT 1 WHERE \"id\" = (7)");
    assert_eq!(rendered(&[seg(&["(1..3)"])], &odd), "SELECT 1 WHERE \"id\" BETWEEN 1 AND 3");
    assert!(!held(&[seg(&["(1,3)"])], &odd).unwrap().unwrap().is_sound());
    assert!(held(&[seg(&["(1,3)"])], &columns()).unwrap().unwrap().is_sound());
}

#[test]
fn an_operator_of_equality_says_what_the_value_alone_says() {
    for value in ["7", "(1,3)", "(1..3)"] {
        let alone = sql(&[seg(&[value])]);
        assert_eq!(sql(&[seg(&["eq", value])]), alone);
        assert_eq!(sql(&[seg(&["in", value])]), alone);
        assert_eq!(sql(&[seg(&["ne", value])]), sql(&[seg(&["nin", value])]));
        assert!(sql(&[seg(&["ne", value])]).contains("NOT "));
    }
    for operator in ["eq", "in", "ne", "nin"] {
        assert_eq!(held(&[seg(&[operator, "abc"])], &columns()).unwrap_err(), FilterError::NotANumber("abc".to_string()));
    }
}
