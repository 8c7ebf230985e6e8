use duckxy::ast::{Relation, Select, SqlExpr};
use duckxy::formats::{claim, for_extension, geojson, split, Format, Framing, GeoJson, Output, OutputDef};
use duckxy::grammar::{Grammar, StageCtx};
use duckxy::sql::PlanError;
use duckxy::url::{parse, ParsedUrl};

fn one(ctx: &StageCtx) -> Select {
    Select::from(SqlExpr::Raw("1".to_string()), Relation::Table(ctx.data()))
}

struct Doc;

impl Output for Doc {
    fn extensions(&self) -> Vec<&'static str> {
        vec!["doc"]
    }
    fn content_type(&self) -> &'static str {
        "application/json"
    }
    fn framing(&self) -> Framing {
        Framing::default()
    }
    fn applies(&self, _: &ParsedUrl) -> bool {
        true
    }
    fn rows(&self, ctx: &mut StageCtx<'_>, _: &ParsedUrl) -> Result<Select, PlanError> {
        Ok(one(ctx))
    }
}

struct Long;

impl Output for Long {
    fn extensions(&self) -> Vec<&'static str> {
        vec!["shp.doc"]
    }
    fn content_type(&self) -> &'static str {
        "application/x-long"
    }
    fn framing(&self) -> Framing {
        Framing::default()
    }
    fn applies(&self, _: &ParsedUrl) -> bool {
        true
    }
    fn rows(&self, ctx: &mut StageCtx<'_>, _: &ParsedUrl) -> Result<Select, PlanError> {
        Ok(one(ctx))
    }
}

/// An output that shares an extension, and is meant for some requests alone.
struct Gated;

impl Output for Gated {
    fn extensions(&self) -> Vec<&'static str> {
        vec!["json"]
    }
    fn content_type(&self) -> &'static str {
        "application/x-gated"
    }
    fn framing(&self) -> Framing {
        Framing { overrides: true, ..Framing::default() }
    }
    fn applies(&self, parsed: &ParsedUrl) -> bool {
        parsed.dataset == "gated"
    }
    fn rows(&self, ctx: &mut StageCtx<'_>, _: &ParsedUrl) -> Result<Select, PlanError> {
        Ok(one(ctx))
    }
}

fn register(g: &mut Grammar, output: impl Output + 'static) {
    let def = OutputDef { output: Box::new(output) };
    if let Some(fault) = g.check_output(&def) {
        panic!("{}", fault.message());
    }
    g.register_output(def);
}

#[test]
fn each_json_suffix_resolves_to_the_core_output() {
    for ext in ["geojson", "json", "GeoJSON"] {
        let held = for_extension(ext, &Grammar::built_in()).expect("the core output claims it");
        assert_eq!(held.output.content_type(), "application/geo+json");
    }
}

#[test]
fn unknown_extensions_resolve_to_nothing() {
    for ext in ["xml", "gml", ""] {
        assert!(for_extension(ext, &Grammar::built_in()).is_none());
    }
}

#[test]
fn the_core_output_frames_a_feature_collection() {
    let g = GeoJson;
    assert_eq!(g.content_type(), "application/geo+json");
    assert_eq!(g.header(), r#"{"type":"FeatureCollection","features":["#);
    assert_eq!(g.separator(), ",");
    assert_eq!(g.footer(), "]}");
    assert!(g.requires_wgs84());
    assert!(!g.overrides());
}

#[test]
fn a_header_and_footer_alone_are_valid_json() {
    let body = format!("{}{}", GeoJson.header(), GeoJson.footer());
    serde_json::from_str::<serde_json::Value>(&body).unwrap();
}

#[test]
fn an_output_that_declares_nothing_gets_empty_framing() {
    assert_eq!(Doc.header(), "");
    assert_eq!(Doc.separator(), "");
    assert_eq!(Doc.footer(), "");
    assert!(!Doc.requires_wgs84());
}

#[test]
fn the_longest_matching_extension_wins() {
    let mut g = Grammar::default();
    register(&mut g, Doc);
    register(&mut g, Long);
    let (cut, ext) = split("@dataset:x.shp.doc", &g).expect("a compound extension resolves");
    assert_eq!(&"@dataset:x.shp.doc"[..cut], "@dataset:x");
    assert_eq!(ext, "shp.doc");
}

#[test]
fn nothing_is_split_off_without_a_dot() {
    assert!(split("@dataset:xgeojson", &Grammar::built_in()).is_none());
}

#[test]
fn an_empty_registry_resolves_nothing() {
    assert!(for_extension("geojson", &Grammar::default()).is_none());
    assert!(split("@dataset:x.geojson", &Grammar::default()).is_none());
}

#[test]
fn a_split_counts_bytes() {
    let segment = "@dataset:größe.GeoJSON";
    let (cut, ext) = split(segment, &Grammar::built_in()).unwrap();
    assert_eq!(&segment[..cut], "@dataset:größe");
    assert_eq!(ext, "geojson");
}

#[test]
fn a_format_is_split_off_as_the_built_in_grammar_splits_it() {
    for path in ["x.geojson", "x.json", "x.GeoJSON", "a.json.geojson", ".json", "json", "x.xml", ""] {
        let by_format = Format::split(path).map(|(source, ext, _)| (source.len(), ext));
        assert_eq!(by_format, split(path, &Grammar::built_in()), "{path}");
    }
    assert_eq!(Format::split("x.json"), Some(("x".to_string(), "json", Format::Json)));
    assert!(Format::Json.requires_wgs84());
}

#[test]
fn the_latest_output_that_is_meant_for_the_request_is_asked() {
    let mut g = Grammar::built_in();
    register(&mut g, Gated);
    let gated = parse("/@dataset:gated.json", &g).unwrap();
    let other = parse("/@dataset:other.json", &g).unwrap();
    assert_eq!(claim("JSON", &gated, &g).unwrap().output.content_type(), "application/x-gated");
    assert_eq!(claim("json", &other, &g).unwrap().output.content_type(), "application/geo+json");
    assert_eq!(for_extension("json", &g).unwrap().output.content_type(), "application/x-gated");
    assert!(claim("xml", &other, &g).is_none());
}

#[test]
fn outputs_are_the_same_where_their_extensions_are() {
    let core = for_extension("json", &Grammar::built_in()).unwrap();
    assert!(core.same_as(&geojson()));
    assert!(!core.same_as(&OutputDef { output: Box::new(Doc) }));
}
