use duckxy::ast::Select;
use duckxy::auth::{Auth, SignedPath};
use duckxy::backend::Backend;
use duckxy::dataset::{DatasetRoot, Entry, Listing};
use duckxy::filters::FilterError;
use duckxy::formats::{Format, Framing, Output, OutputDef};
use duckxy::grammar::{Grammar, Param, ParamError, StageCtx};
use duckxy::handler::{dataset, ending, error_status, Ending, Failure};
use duckxy::sql::{is_plannable_on, plan_on, PlanError};
use duckxy::url::ParsedUrl;
use duckxy::{resolve_error, Fault};
use std::sync::Arc;

const KEY: &str = "00112233445566778899aabbccddeeff";

fn answered(path: &str, columns: &[(&str, &str)]) -> (u16, String) {
    let auth = Auth::new(Some(KEY), false).unwrap();
    let signed = SignedPath::check(&auth, &auth.sign(path).unwrap(), &path[1..]).unwrap();
    let grammar = Grammar::built_in();
    let parsed = match dataset(&signed, &grammar) {
        Ok(serve) => serve.parsed,
        Err(fault) => return (fault.status, fault.message),
    };
    let entries = ["pts", "noid"].iter().map(|n| Entry { name: format!("{n}.geojson"), is_dir: false }).collect();
    let listing = Listing { root: Some("/data".to_string()), entries };
    let root = DatasetRoot::new("/data".to_string());
    let source = match root.resolve(Some(listing), &parsed.dataset, parsed.path.as_deref(), |_| None) {
        Ok(source) => source,
        Err(e) => {
            let fault = resolve_error(&e);
            return (fault.status, fault.message);
        }
    };
    let columns: Vec<(String, String)> =
        columns.iter().map(|(name, kind)| (name.to_string(), kind.to_string())).collect();
    let backend = Arc::new(Backend::default());
    assert!(is_plannable_on(&grammar, &parsed, &source, &columns, None, backend.clone()));
    match plan_on(&grammar, &parsed, &source, &columns, None, backend) {
        Ok(sql) => (200, sql),
        Err(e) => error_status(&Failure::Plan(e), &parsed.encoding),
    }
}

fn points(path: &str) -> (u16, String) {
    let columns =
        [("id", "INTEGER"), ("name", "VARCHAR"), ("pop", "INTEGER"), ("code", "VARCHAR"), ("geom", "GEOMETRY")];
    answered(path, &columns)
}

#[test]
fn a_signed_request_is_served() {
    for path in
        ["/@dataset:pts.geojson", "/@dataset:pts/output.geojson", "/@ds:pts.geojson", "/@ds:pts/output.geojson"]
    {
        let (status, sql) = points(path);
        assert_eq!(status, 200, "{sql}");
        assert!(sql.contains("/data/pts.geojson"), "{sql}");
    }
}

#[test]
fn a_signed_request_may_name_the_other_extension_and_an_encoding() {
    for path in ["/@dataset:pts.json", "/@dataset:pts,enc:utf-8.geojson"] {
        let (status, sql) = points(path);
        assert_eq!(status, 200, "{sql}");
        assert!(sql.contains("/data/pts.geojson"), "{sql}");
    }
}

struct Lines(Vec<&'static str>, bool, bool);

impl Output for Lines {
    fn extensions(&self) -> Vec<&'static str> {
        self.0.clone()
    }
    fn content_type(&self) -> &'static str {
        "application/geo+json-seq"
    }
    fn framing(&self) -> Framing {
        Framing { header: "<", separator: "\n", footer: ">", overrides: self.1, requires_wgs84: false }
    }
    fn applies(&self, _: &ParsedUrl) -> bool {
        self.2
    }
    fn rows(&self, ctx: &mut StageCtx<'_>, _: &ParsedUrl) -> Result<Select, PlanError> {
        Ok(Select::all(&ctx.data()))
    }
}

fn with_lines(lines: Lines) -> Grammar {
    let mut grammar = Grammar::built_in();
    let def = OutputDef { output: Box::new(lines) };
    assert!(grammar.check_output(&def).is_none());
    grammar.register_output(def);
    grammar
}

#[test]
fn a_registered_output_can_be_asked_for() {
    let grammar = with_lines(Lines(vec!["geojsonl", "geojsonseq"], false, true));
    for (path, extension) in [("/@dataset:pts.geojsonl", "geojsonl"), ("/@dataset:pts/x.GeoJSONSeq", "geojsonseq")] {
        let serve = match dataset(&SignedPath(path.to_string()), &grammar) {
            Ok(serve) => serve,
            Err(fault) => panic!("{fault:?}"),
        };
        assert_eq!((serve.parsed.dataset.as_str(), serve.parsed.extension), ("pts", extension));
        assert_eq!(serve.parsed.format, None);
        assert_eq!(serve.render.content_type, "application/geo+json-seq");
        assert_eq!((serve.render.header, serve.render.separator, serve.render.footer), ("<", "\n", ">"));
        assert_eq!(serve.disposition, format!("inline; filename=\"pts.{extension}\""));
        let columns = vec![("geom".to_string(), "GEOMETRY".to_string())];
        let backend = Arc::new(Backend::default());
        let sql = plan_on(&grammar, &serve.parsed, "/data/pts.geojson", &columns, None, backend).unwrap();
        assert!(sql.ends_with("SELECT * FROM \"source\""), "{sql}");
    }
    let serve = dataset(&SignedPath("/@dataset:pts.json".to_string()), &grammar).ok().unwrap();
    assert_eq!(serve.render.content_type, "application/geo+json");
    assert_eq!(serve.parsed.format, Some(Format::Json));
}

#[test]
fn an_output_that_takes_over_an_extension_frames_its_rows() {
    let grammar = with_lines(Lines(vec!["json"], true, true));
    let serve = dataset(&SignedPath("/@dataset:pts.json".to_string()), &grammar).ok().unwrap();
    assert_eq!(serve.render.content_type, "application/geo+json-seq");
    let serve = dataset(&SignedPath("/@dataset:pts.geojson".to_string()), &grammar).ok().unwrap();
    assert_eq!(serve.render.content_type, "application/geo+json");
    let grammar = with_lines(Lines(vec!["json"], true, false));
    let serve = dataset(&SignedPath("/@dataset:pts.json".to_string()), &grammar).ok().unwrap();
    assert_eq!(serve.render.content_type, "application/geo+json");
}

#[test]
fn an_extension_that_no_output_claims_is_refused() {
    let grammar = with_lines(Lines(vec!["geojsonl"], false, false));
    let fault = dataset(&SignedPath("/@dataset:pts.geojsonl".to_string()), &grammar).err().unwrap();
    assert_eq!(fault, Fault::new(400, "unknown format: geojsonl".to_string()));
    let fault = dataset(&SignedPath("/@dataset:pts.geojsonl".to_string()), &Grammar::built_in()).err().unwrap();
    assert_eq!(fault, Fault::new(400, "unknown format: geojsonl".to_string()));
}

#[test]
fn an_unsigned_request_is_forbidden() {
    let auth = Auth::new(Some(KEY), false).unwrap();
    assert_eq!(SignedPath::check(&auth, "@dataset:pts", "output.geojson"), None);
}

#[test]
fn a_signature_for_another_path_is_forbidden() {
    let auth = Auth::new(Some(KEY), false).unwrap();
    let sig = auth.sign("/@dataset:other/output.geojson").unwrap();
    assert_eq!(SignedPath::check(&auth, &sig, "@dataset:pts/output.geojson"), None);
}

#[test]
fn insecure_works_only_when_enabled() {
    let off = Auth::new(Some(KEY), false).unwrap();
    assert_eq!(SignedPath::check(&off, "insecure", "@dataset:pts.geojson"), None);
    let on = Auth::new(Some(KEY), true).unwrap();
    assert_eq!(
        SignedPath::check(&on, "insecure", "@dataset:pts.geojson"),
        Some(SignedPath("/@dataset:pts.geojson".to_string()))
    );
}

#[test]
fn errors_keep_their_status_behind_a_valid_signature() {
    assert_eq!(points("/@dataset:pts.xml").0, 400);
    assert_eq!(points("/@dataset:nope.geojson").0, 404);
}

#[test]
fn bad_filters_are_client_errors() {
    for path in [
        "/@dataset:pts,zzz:1.geojson",
        "/@dataset:pts,prop:nosuch:1.geojson",
        "/@dataset:pts,prop:name:zzz:1.geojson",
        "/@dataset:pts,prop:pop:gt:abc.geojson",
        "/@dataset:pts,valid:yes.geojson",
        "/@dataset:pts,type:Banana.geojson",
        "/@dataset:pts,type:ST_Point.geojson",
        "/@dataset:pts,prop:pop:eq:abc.geojson",
        "/@dataset:pts,id:inf.geojson",
        "/@dataset:pts,id:NaN.geojson",
        "/@dataset:pts,id:1e400.geojson",
        "/@dataset:pts,id:(a,b).geojson",
        "/@dataset:pts,id:file-(1..3).txt.geojson",
        "/@dataset:pts,prop:only.geojson",
        "/@dataset:pts,enc:utf-8,enc:latin1.geojson",
        "/@dataset:pts,id:1:2.geojson",
        "/@dataset:pts,id:~1,enc:latin1.geojson",
        "/@dataset:pts,id:1,enc:utf-8.geojson",
        "/@dataset:pts,ix:plain.geojson",
        "/@dataset:pts,ix:(@dataset:pts)x.geojson",
        "/@dataset:pts,ix:(@dataset:d0),ix:(@dataset:d1),ix:(@dataset:d2),ix:(@dataset:d3),ix:(@dataset:d4),\
         ix:(@dataset:d5),ix:(@dataset:d6),ix:(@dataset:d7),ix:(@dataset:d8),ix:(@dataset:d9),\
         ix:(@dataset:d10).geojson",
    ] {
        let (status, body) = points(path);
        assert_eq!(status, 400, "{path}: {body}");
    }
}

#[test]
fn an_id_filter_without_an_id_column_is_unprocessable() {
    let (status, body) = answered("/@dataset:noid,id:1.geojson", &[("name", "VARCHAR"), ("geom", "GEOMETRY")]);
    assert_eq!(status, 422, "{body}");
    assert!(body.contains("id column"), "{body}");
}

fn reported(message: &str) -> Failure {
    Failure::Reported(vec![message.to_string()])
}

#[test]
fn a_missing_geometry_column_is_a_client_error() {
    let (status, message) = error_status(&Failure::Plan(PlanError::NoGeometry), "UTF-8");
    assert_eq!(status, 422);
    assert_eq!(message, "source has no geometry column");
}

#[test]
fn an_unreadable_source_names_the_encoding_and_leaks_no_path() {
    let raw = reported(
        "Invalid Input Error: Malformed JSON at byte 0 of input. Input: /vsizip//srv/data/secret.zip/x.shp",
    );
    let (status, message) = error_status(&raw, "ISO-8859-1");
    assert_eq!(status, 422);
    assert_eq!(message, "source could not be read with encoding ISO-8859-1");
    assert!(!message.contains("/srv/data"), "the data root leaked: {message}");
}

#[test]
fn a_geometry_failure_is_not_blamed_on_the_encoding() {
    let raw = reported("Invalid Input Error: TopologyException: side location conflict at 0.5 0.5");
    let (status, message) = error_status(&raw, "ISO-8859-1");
    assert_eq!(status, 422);
    assert_eq!(message, "source geometry could not be processed");
    assert!(!message.contains("encoding"), "a geometry failure blamed the encoding: {message}");
}

#[test]
fn a_source_gdal_cannot_open_is_a_client_error() {
    let raw = reported(
        "IO Error: Could not open GDAL dataset at: /vsizip//srv/data/gbr.zip/geoBoundaries-GBR-ADM2-metaData.json",
    );
    let (status, message) = error_status(&raw, "UTF-8");
    assert_eq!(status, 422);
    assert_eq!(message, "source could not be opened as a geospatial dataset");
    assert!(!message.contains("/srv/data"), "the data root leaked: {message}");
}

#[test]
fn any_other_query_failure_stays_a_server_error() {
    let (status, message) = error_status(&reported("disk on fire"), "UTF-8");
    assert_eq!(status, 500);
    assert_eq!(message, "query failed");
}

#[test]
fn a_malformed_filter_is_a_client_error() {
    let raw = Failure::Plan(PlanError::Filter(FilterError::BadParams("id".to_string())));
    let (status, message) = error_status(&raw, "UTF-8");
    assert_eq!(status, 400);
    assert_eq!(message, "filter has the wrong number of parameters: id");
}

#[test]
fn a_missing_id_column_is_unprocessable() {
    let raw = Failure::Plan(PlanError::Filter(FilterError::NoIdColumn));
    let (status, message) = error_status(&raw, "UTF-8");
    assert_eq!(status, 422);
    assert!(message.contains("id column"), "{message}");
}

#[test]
fn the_causes_of_a_failure_are_read_together() {
    let raw = Failure::Reported(vec!["run query".to_string(), "AssertionFailedException".to_string()]);
    assert_eq!(error_status(&raw, "UTF-8").0, 422);
    let raw = Failure::Reported(vec!["Invalid Input".to_string(), " Error".to_string()]);
    assert_eq!(error_status(&raw, "UTF-8").0, 500, "a marker does not span two causes");
}

#[test]
fn a_refusal_is_answered_by_what_it_says() {
    let raw = Failure::Refused(Fault::new(413, "too large".to_string()));
    assert_eq!(error_status(&raw, "UTF-8"), (500, "query failed".to_string()));
    let raw = Failure::Refused(Fault::new(413, "Invalid Input Error: too large".to_string()));
    assert_eq!(
        error_status(&raw, "UTF-8"),
        (422, "source could not be read with encoding UTF-8".to_string())
    );
}

#[test]
fn any_other_plan_error_stays_a_server_error() {
    let param = ParamError { at: 0, expected: Param::Token, got: "a b".to_string() };
    assert_eq!(
        error_status(&Failure::Plan(PlanError::Param(param)), "UTF-8"),
        (500, "query failed".to_string())
    );
}

#[test]
fn the_download_filename_comes_from_the_dataset() {
    for (path, expected) in [
        ("/@dataset:pts.geojson", "pts.geojson"),
        ("/@dataset:pts/output.geojson", "pts.geojson"),
        ("/@dataset:pts/my.export.json", "pts.json"),
    ] {
        let serve = match dataset(&SignedPath(path.to_string()), &Grammar::built_in()) {
            Ok(serve) => serve,
            Err(fault) => panic!("{fault:?}"),
        };
        assert_eq!(serve.disposition, format!("inline; filename=\"{expected}\""));
        assert_eq!(serve.render.content_type, "application/geo+json");
        assert_eq!(serve.parsed.dataset, "pts");
    }
}

#[test]
fn a_path_that_is_no_request_is_a_client_error() {
    let fault = match dataset(&SignedPath("/@dataset:pts.xml".to_string()), &Grammar::built_in()) {
        Ok(_) => panic!("xml is no format"),
        Err(fault) => fault,
    };
    assert_eq!(fault, Fault::new(400, "unknown format: xml".to_string()));
}

#[test]
fn the_status_is_told_before_the_first_byte() {
    let failure = reported("disk on fire");
    assert_eq!(ending(false, None, "UTF-8"), Ending::Footer);
    assert_eq!(ending(true, None, "UTF-8"), Ending::Footer);
    assert_eq!(ending(true, Some(&failure), "UTF-8"), Ending::Cut);
    assert_eq!(
        ending(false, Some(&failure), "UTF-8"),
        Ending::Status(500, "query failed".to_string())
    );
}
