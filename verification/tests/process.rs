use duckxy::backend::Backend;
use duckxy::grammar::Grammar;
use duckxy::process::{grammar, process};
use duckxy::sql::{plan, plan_on, PlanError, WGS84};
use duckxy::url::{parse, Segment};
use std::sync::Arc;

fn columns() -> Vec<(String, String)> {
    vec![("id".to_string(), "BIGINT".to_string()), ("geom".to_string(), "GEOMETRY".to_string())]
}

fn planned(url: &str, crs: Option<&str>) -> String {
    let grammar = grammar();
    let parsed = parse(url, &grammar).unwrap();
    let backend = Arc::new(Backend::default());
    plan_on(&grammar, &parsed, "/x.geojson", &columns(), crs, backend).unwrap()
}

#[test]
fn a_target_is_normalised_to_an_uppercase_authority_and_code() {
    for (url, expected) in [
        ("/@dataset:x/@process/r:3857.geojson", "'EPSG:3857'"),
        ("/@dataset:x/@p/reproject:3857.geojson", "'EPSG:3857'"),
        ("/@dataset:x/@process/r:esri:54030.geojson", "'ESRI:54030'"),
        ("/@dataset:x/@process/r:ogc:crs84.geojson", "'OGC:CRS84'"),
    ] {
        assert!(planned(url, Some("EPSG:25832")).contains(expected), "{}", planned(url, Some("EPSG:25832")));
    }
}

#[test]
fn the_source_crs_reaches_the_transform() {
    let out = planned("/@dataset:x/@process/r:3857.geojson", Some("epsg:25832"));
    assert!(out.contains("'EPSG:25832', 'EPSG:3857'"), "the source crs did not reach the transform: {out}");
}

#[test]
fn a_reproject_updates_the_crs_the_output_converts_from() {
    let out = planned("/@dataset:x/@process/r:3857.geojson", Some("EPSG:25832"));
    assert!(out.contains("'EPSG:3857', 'EPSG:4326'"), "the output did not convert back from 3857: {out}");
    assert_eq!(out.matches("ST_Transform").count(), 2, "expected the explicit and the implicit step: {out}");
}

#[test]
fn a_redundant_reproject_emits_no_transform() {
    let out = planned("/@dataset:x/@process/r:4326.geojson", Some(WGS84));
    assert!(!out.contains("ST_Transform"), "a same-crs reproject wrapped the geometry: {out}");
}

#[test]
fn a_source_already_in_wgs84_adds_no_output_step() {
    for crs in ["EPSG:4326", "OGC:CRS84", "CRS84", "crs84"] {
        let out = planned("/@dataset:x.geojson", Some(crs));
        assert!(!out.contains("ST_Transform"), "{crs} was not recognised as wgs84: {out}");
        let grammar = grammar();
        let parsed = parse("/@dataset:x.geojson", &grammar).unwrap();
        let out = plan(&grammar, &parsed, "/x.geojson", &columns(), Some(crs)).unwrap();
        assert!(!out.contains("ST_Transform"), "{crs} was not recognised as wgs84: {out}");
    }
}

#[test]
fn the_action_can_be_registered_where_its_names_are_free() {
    let mut built_in = Grammar::built_in();
    assert!(built_in.check_action(&process()).is_none());
    built_in.register_action(process());
    assert!(built_in.check_action(&process()).is_some());
    let served = grammar();
    assert_eq!(served.actions.len(), 1);
    assert!(served.action_for("process").is_some() && served.action_for("p").is_some());
}

#[test]
fn a_second_reproject_reads_the_crs_the_first_one_set() {
    let grammar = grammar();
    let mut parsed = parse("/@dataset:x/@process/r:3857.geojson", &grammar).unwrap();
    parsed.actions[0].segments.push(Segment { name: "reproject".to_string(), params: vec!["25832".to_string()] });
    let backend = Arc::new(Backend::default());
    let out = plan_on(&grammar, &parsed, "/x.geojson", &columns(), Some("EPSG:25832"), backend).unwrap();
    assert!(out.contains("'EPSG:25832', 'EPSG:3857'"), "the first leg is wrong: {out}");
    assert!(out.contains("'EPSG:3857', 'EPSG:25832'"), "the second leg did not read the crs the first set: {out}");
    assert!(out.contains("'EPSG:25832', 'EPSG:4326'"), "the output did not convert from the last crs: {out}");
}

#[test]
fn a_reproject_step_is_named_after_its_action() {
    let out = planned("/@dataset:x/@process/r:3857.geojson", Some("EPSG:25832"));
    assert!(out.contains("\"process_1\" AS"), "{out}");
}

fn failed(segment: Segment) -> PlanError {
    let grammar = grammar();
    let mut parsed = parse("/@dataset:x/@process/r:3857.geojson", &grammar).unwrap();
    parsed.actions[0].segments = vec![segment];
    let backend = Arc::new(Backend::default());
    plan_on(&grammar, &parsed, "/x.geojson", &columns(), None, backend).unwrap_err()
}

#[test]
fn a_segment_is_held_to_its_option() {
    let error = failed(Segment { name: "nope".to_string(), params: vec![] });
    assert_eq!(error.message(), "option \"nope\" is not registered on \"process\"");
    let error = failed(Segment { name: "reproject".to_string(), params: vec!["1".to_string(); 3] });
    assert_eq!(error.message(), "option \"reproject\" does not take 3 parameters");
    let error = failed(Segment { name: "r".to_string(), params: vec!["3857".to_string()] });
    assert_eq!(error.message(), "option \"r\" is not handled");
    let error = failed(Segment { name: "reproject".to_string(), params: vec!["a b".to_string()] });
    assert_eq!(
        error.message(),
        "parameter 1 expected letters, digits, dot, dash or underscore, got \"a b\""
    );
}

#[test]
fn a_request_without_an_output_is_reported() {
    let mut grammar = grammar();
    grammar.outputs.clear();
    let parsed = parse("/@dataset:x.geojson", &grammar).unwrap();
    let backend = Arc::new(Backend::default());
    let error = plan_on(&grammar, &parsed, "/x.geojson", &columns(), None, backend).unwrap_err();
    assert_eq!(error.message(), "no output is written as \"geojson\"");
}

#[test]
fn another_spelling_of_a_reference_system_is_transformed() {
    let out = planned("/@dataset:x.geojson", Some("epsg:4326"));
    assert!(out.contains("ST_Transform(\"geom\", 'EPSG:4326', 'EPSG:4326', always_xy := true)"), "{out}");
}
