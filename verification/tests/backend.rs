use duckxy::ast::{Relation, Select, Selected, SqlExpr};
use duckxy::backend::{Backend, Dialect, DialectDef, DuckDb, SqlFn, SqlOp, UnknownOp, Vocabulary};
use duckxy::sea::render;

fn rendered(expr: SqlExpr) -> String {
    let select =
        Select { columns: vec![Selected { expr, alias: None }], from: Vec::new(), filter: None, limit: None };
    render(&select).trim_start_matches("SELECT ").to_string()
}

fn geom() -> SqlExpr {
    SqlExpr::Column("geom".to_string())
}

fn duckdb() -> Backend {
    Backend::default()
}

/// Two functions, one round the other.
struct Nested(&'static str, &'static str);

impl SqlFn for Nested {
    fn build(&self, mut args: Vec<SqlExpr>) -> SqlExpr {
        let inner = SqlExpr::Call(self.1.to_string(), vec![args.remove(0)]);
        SqlExpr::Call(self.0.to_string(), vec![inner])
    }
}

/// One function.
struct Single(&'static str);

impl SqlFn for Single {
    fn build(&self, mut args: Vec<SqlExpr>) -> SqlExpr {
        SqlExpr::Call(self.0.to_string(), vec![args.remove(0)])
    }
}

fn register(v: &mut Vocabulary, op: SqlOp) {
    if v.has(op.name) {
        panic!("operation {:?} is already registered on this backend", op.name);
    }
    v.register(op);
}

#[test]
fn core_only_depends_on_two_dialect_methods() {
    let d = DuckDb;
    assert_eq!(rendered(d.as_geojson(geom())), "ST_AsGeoJSON(\"geom\")");
    assert_eq!(
        rendered(d.transform(geom(), "EPSG:25832", "EPSG:3857")),
        "ST_Transform(\"geom\", 'EPSG:25832', 'EPSG:3857', always_xy := true)"
    );
}

#[test]
fn duckdb_uppercases_both_ends_because_proj_is_case_sensitive() {
    for (from, to, expected) in [
        ("epsg:25832", "esri:54030", "'EPSG:25832', 'ESRI:54030'"),
        ("ogc:crs84", "ignf:lamb93", "'OGC:CRS84', 'IGNF:LAMB93'"),
    ] {
        assert!(rendered(DuckDb.transform(geom(), from, to)).contains(expected));
    }
}

#[test]
fn the_duckdb_vocabulary_spells_each_operation() {
    for (op, expected) in [
        ("extent_agg", "ST_Extent_Agg(\"geom\")"),
        ("x", "ST_X(\"geom\")"),
        ("y", "ST_Y(\"geom\")"),
        ("x_min", "ST_XMin(\"geom\")"),
        ("y_min", "ST_YMin(\"geom\")"),
        ("x_max", "ST_XMax(\"geom\")"),
        ("y_max", "ST_YMax(\"geom\")"),
        ("area_meters", "SUM(ST_Area_Spheroid(\"geom\"))"),
        ("as_text", "CAST(\"geom\" AS VARCHAR)"),
        ("geojson_coordinates", "json_extract(CAST(ST_AsGeoJSON(\"geom\") AS JSON), '$.coordinates')"),
        ("array", "json_array(\"geom\")"),
        ("object", "json_object(\"geom\")"),
    ] {
        assert_eq!(rendered(duckdb().call(op, vec![geom()]).unwrap()), expected);
    }
}

#[test]
fn an_unknown_operation_names_itself() {
    let err = duckdb().call("banana", vec![geom()]).unwrap_err();
    assert_eq!(err, UnknownOp("banana".to_string()));
    assert_eq!(err.message(), "this backend has no operation named \"banana\"");
}

#[test]
fn a_vocabulary_reports_what_it_holds() {
    let held = duckdb().operations();
    assert!(held.contains(&"extent_agg"), "{held:?}");
    assert!(!held.contains(&"banana"), "{held:?}");
    assert!(duckdb().has("array"));
    assert!(!duckdb().has("banana"));
}

#[test]
fn the_names_of_a_vocabulary_are_in_order() {
    assert_eq!(
        duckdb().operations(),
        vec![
            "area_meters",
            "array",
            "as_text",
            "extent_agg",
            "geojson_coordinates",
            "object",
            "x",
            "x_max",
            "x_min",
            "y",
            "y_max",
            "y_min",
        ]
    );
}

#[test]
fn a_downstream_can_add_an_operation_core_never_named() {
    let backend = Backend::default().extend(|v| {
        register(
            v,
            SqlOp { name: "downstream_op", op: Box::new(Nested("ST_Whatever", "ST_Union_Agg")) },
        );
    });
    assert_eq!(
        rendered(backend.call("downstream_op", vec![geom()]).unwrap()),
        "ST_Whatever(ST_Union_Agg(\"geom\"))"
    );
    assert!(backend.has("extent_agg"), "extending must not drop the seeded vocabulary");
}

#[test]
fn a_downstream_can_replace_an_operation() {
    let backend = Backend::default().extend(|v| {
        v.replace(SqlOp { name: "x", op: Box::new(Single("ST_XCoord")) });
    });
    assert_eq!(rendered(backend.call("x", vec![geom()]).unwrap()), "ST_XCoord(\"geom\")");
    assert_eq!(backend.operations().len(), 12);
}

#[test]
#[should_panic(expected = "operation \"x\" is already registered")]
fn registering_an_operation_twice_panics() {
    Backend::default().extend(|v| {
        register(v, SqlOp { name: "x", op: Box::new(Single("ST_X")) });
    });
}

#[test]
fn an_empty_dialect_starts_with_no_vocabulary() {
    struct Bare;
    impl Dialect for Bare {
        fn transform(&self, g: SqlExpr, _: &str, _: &str) -> SqlExpr {
            g
        }
        fn as_geojson(&self, g: SqlExpr) -> SqlExpr {
            g
        }
        fn vocabulary(&self) -> Vocabulary {
            Vocabulary::default()
        }
    }
    assert!(Backend::new(DialectDef { dialect: Box::new(Bare) }).operations().is_empty());
}

#[test]
fn every_kind_of_expression_is_written_out() {
    let text = |s: &str| SqlExpr::Text(s.to_string());
    let boxed = |e: SqlExpr| Box::new(e);
    let cases = vec![
        (SqlExpr::Qualified("t".to_string(), "c".to_string()), "\"t\".\"c\""),
        (text("its"), "'its'"),
        (text("it's"), "E'it\\'s'"),
        (SqlExpr::Integer(-7), "-7"),
        (SqlExpr::Flag(true), "TRUE"),
        (SqlExpr::Raw("1 + 1".to_string()), "1 + 1"),
        (SqlExpr::Lower(boxed(geom())), "LOWER(\"geom\")"),
        (SqlExpr::Coalesce(vec![geom(), text("x")]), "COALESCE(\"geom\", 'x')"),
        (SqlExpr::IsNull(boxed(geom())), "\"geom\" IS NULL"),
        (SqlExpr::IsNotNull(boxed(geom())), "\"geom\" IS NOT NULL"),
        (SqlExpr::Between(boxed(geom()), 1, 2), "\"geom\" BETWEEN 1 AND 2"),
        (SqlExpr::Among(boxed(geom()), vec!["a".to_string()]), "\"geom\" IN ('a')"),
        (SqlExpr::Not(boxed(SqlExpr::IsNull(boxed(geom())))), "NOT \"geom\" IS NULL"),
    ];
    for (expr, expected) in cases {
        let shown = format!("{expr:?}");
        assert_eq!(rendered(expr), expected, "{shown}");
    }
    let like = rendered(SqlExpr::Like(boxed(geom()), "a%".to_string()));
    assert!(like.starts_with("\"geom\" LIKE") && like.contains("ESCAPE"), "{like}");
    let case = rendered(SqlExpr::Case(boxed(SqlExpr::Flag(true)), boxed(geom())));
    assert!(case.contains("CASE WHEN") && case.contains("\"geom\""), "{case}");
    let query = Select {
        columns: vec![Selected { expr: geom(), alias: Some("g".to_string()) }],
        from: vec![
            Relation::Table("t".to_string()),
            Relation::Function("f".to_string(), vec![text("x")], "a".to_string()),
            Relation::Query(Box::new(Select::all("u")), "b".to_string()),
        ],
        filter: Some(boxed(SqlExpr::Flag(false))),
        limit: Some(3),
    };
    assert_eq!(
        render(&query),
        "SELECT \"geom\" AS \"g\" FROM \"t\", f('x') AS \"a\", (SELECT * FROM \"u\") AS \"b\" WHERE FALSE LIMIT 3"
    );
    assert_eq!(
        rendered(SqlExpr::Within(boxed(geom()), Box::new(Select::all("t")))),
        "\"geom\" IN (SELECT * FROM \"t\")"
    );
    assert_eq!(rendered(SqlExpr::Query(Box::new(Select::all("t")))), "(SELECT * FROM \"t\")");
}
