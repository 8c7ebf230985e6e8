use duckxy::ast::SqlExpr;
use duckxy::auth::Auth;
use duckxy::backend::{Backend, Dialect, DialectDef, Vocabulary};
use duckxy::dataset::{DatasetRoot, ResolveError};
use duckxy::encodings::resolve_encoding;
use duckxy::formats::Format;
use duckxy::grammar::Grammar;
use duckxy::render::Render;
use duckxy::routes::redact;
use duckxy::text::{is_white, trim};
use duckxy::{enabled, resolve_error, AppState, Config, Fault};

#[test]
fn enabled_env_values() {
    for (value, expected) in [("true", true), ("1", true), ("false", false), ("yes", false), (" true ", true)] {
        assert_eq!(enabled(value), expected);
    }
}

#[test]
fn white_space_is_what_unicode_says() {
    for c in '\0'..=char::MAX {
        assert_eq!(is_white(c), c.is_whitespace(), "{c:?}");
    }
    for text in ["", "  ", " a b ", "\u{3000}x\u{85}", "\tx"] {
        assert_eq!(trim(text), text.trim());
    }
}

#[test]
fn a_missing_setting_has_its_default() {
    let config = Config::from_settings(None, None, None, None);
    assert_eq!(config.bind, "0.0.0.0:5757");
    assert_eq!(config.data_root, "./data");
    assert_eq!(config.key, None);
    assert!(!config.allow_insecure);
    let config = Config::from_settings(
        Some("localhost:1".to_string()),
        Some("/srv".to_string()),
        Some(" ".to_string()),
        Some("1".to_string()),
    );
    assert_eq!(config.bind, "localhost:1");
    assert_eq!(config.data_root, "/srv");
    assert_eq!(config.key, None, "a blank key is none");
    assert!(config.allow_insecure);
}

#[test]
fn a_dataset_that_cannot_be_found_keeps_its_status() {
    let cases = vec![
        (ResolveError::NotFound("x".to_string()), 404, "dataset not found: x"),
        (
            ResolveError::PathNotFound {
                path: "p".to_string(),
                candidates: vec!["a".to_string(), "b".to_string()],
            },
            404,
            "no such path in archive: p. available: a, b",
        ),
        (ResolveError::EmptyArchive("x.zip".to_string()), 422, "x.zip contains nothing duckxy can read"),
        (
            ResolveError::NotAnArchive("x.shp".to_string()),
            400,
            "x.shp is not an archive, so it has no paths to select",
        ),
        (ResolveError::UnreadableArchive("x.zip".to_string()), 500, "x.zip could not be read"),
        (ResolveError::InvalidRoot("/srv/data".to_string()), 500, "data root is unusable"),
    ];
    for (error, status, message) in cases {
        assert_eq!(resolve_error(&error), Fault::new(status, message.to_string()), "{error:?}");
    }
    assert_eq!(
        ResolveError::InvalidRoot("/srv/data".to_string()).message(),
        "data root is not a directory: /srv/data"
    );
    assert_eq!(Fault::bad_request("b".to_string()).status, 400);
    assert_eq!(Fault::unprocessable("u".to_string()).status, 422);
}

#[test]
fn a_signature_is_not_logged() {
    assert_eq!(redact("/SIG/@dataset:x.geojson"), "/<redacted>/@dataset:x.geojson");
    assert_eq!(redact("//SIG/a/b"), "/<redacted>/a/b");
    assert_eq!(redact("/health"), "/health");
    assert_eq!(redact(""), "");
}

#[test]
fn the_core_render_frames_a_feature_collection() {
    for format in [Format::GeoJson, Format::Json] {
        let r = Render::of(format);
        assert_eq!(r.content_type, "application/geo+json");
        assert_eq!(r.header, r#"{"type":"FeatureCollection","features":["#);
        assert_eq!(r.footer, "]}");
        assert_eq!(r.separator, ",");
    }
}

#[test]
fn a_rendered_header_and_footer_alone_are_valid_json() {
    for format in [Format::GeoJson, Format::Json] {
        let r = Render::of(format);
        let body = format!("{}{}", r.header, r.footer);
        serde_json::from_str::<serde_json::Value>(&body).unwrap();
    }
}

#[test]
fn an_encoding_goes_by_its_aliases() {
    for (label, expected) in [
        ("utf-8", Some("UTF-8")),
        ("UTF-8", Some("UTF-8")),
        ("Latin1", Some("ISO-8859-1")),
        ("iso-8859-1", Some("ISO-8859-1")),
        ("csISOLatin1", Some("ISO-8859-1")),
        ("KOI8-R", Some("KOI8-R")),
        ("KOI8@8", None),
        ("", None),
    ] {
        assert_eq!(resolve_encoding(label).as_deref(), expected, "{label}");
    }
}

struct Bare;

impl Dialect for Bare {
    fn transform(&self, g: SqlExpr, _: &str, _: &str) -> SqlExpr {
        g
    }
    fn as_geojson(&self, g: SqlExpr) -> SqlExpr {
        g
    }
    fn vocabulary(&self) -> Vocabulary {
        Vocabulary::default()
    }
}

#[test]
fn a_state_answers_from_duckdb_unless_told_otherwise() {
    let state = AppState::new(
        DatasetRoot::new("/data".to_string()),
        Auth::new(None, true).unwrap(),
        Grammar::built_in(),
    );
    assert_eq!(state.root.root(), "/data");
    assert!(state.backend.has("extent_agg"));
    let state = state.with_backend(Backend::new(DialectDef { dialect: Box::new(Bare) }));
    assert!(!state.backend.has("extent_agg"));
    assert_eq!(state.grammar.filters.len(), 7);
}
