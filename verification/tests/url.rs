use duckxy::grammar::{flag, opt, Action, ActionDef, Grammar, Opt, Param, StageCtx};
use duckxy::sql::PlanError;
use duckxy::url::{
    is_valid_name, is_valid_path, parse, trim_filename, ParseError, Segment, MAX_ACTIONS, MAX_FILTERS, MAX_OPTIONS,
};

struct Probe(fn() -> Vec<Opt>, &'static str);

impl Action for Probe {
    fn name(&self) -> &'static str {
        "probe"
    }
    fn short(&self) -> &'static str {
        self.1
    }
    fn options(&self) -> Vec<Opt> {
        (self.0)()
    }
    fn run(&self, _: &mut StageCtx<'_>, _: &[Segment]) -> Result<(), PlanError> {
        Ok(())
    }
}

fn with(probe: Probe) -> Grammar {
    let mut g = Grammar::built_in();
    let def = ActionDef { action: Box::new(probe) };
    assert!(g.check_action(&def).is_none());
    g.register_action(def);
    g
}

fn test_grammar() -> Grammar {
    with(Probe(|| vec![flag("aa", "a"), flag("bb", ""), opt("val", "", vec![vec![Param::Value]])], "p"))
}

fn many_options() -> Grammar {
    with(Probe(|| OPTION_NAMES.iter().map(|name| flag(name, "")).collect(), ""))
}

#[test]
fn core_rejects_an_action_it_does_not_know() {
    let err = parse("/@dataset:pts/@probe/aa.json", &Grammar::built_in()).unwrap_err();
    assert_eq!(err, ParseError::UnknownAction("probe".to_string()));
}

#[test]
fn a_registered_action_parses_with_its_options() {
    let out = parse("/@dataset:pts/@probe/aa,bb.json", &test_grammar()).unwrap();
    assert_eq!(out.actions.len(), 1);
    assert_eq!(out.actions[0].name, "probe");
    let names: Vec<&str> = out.actions[0].segments.iter().map(|s| s.name.as_str()).collect();
    assert_eq!(names, vec!["aa", "bb"]);
    assert!(out.actions[0].segments[0].params.is_empty(), "an option with no shape takes no parameters");
}

#[test]
fn an_action_and_its_options_answer_to_their_aliases() {
    for url in [
        "/@dataset:pts/@p/aa.json",
        "/@dataset:pts/@probe/a.json",
    ] {
        let out = parse(url, &test_grammar()).unwrap();
        assert_eq!(out.actions[0].name, "probe", "the canonical action name is stored");
        assert_eq!(out.actions[0].segments[0].name, "aa", "the canonical option name is stored");
    }
}

#[test]
fn an_action_option_is_held_to_its_registration() {
    let cases: Vec<(&str, ParseError)> = vec![
        ("/@dataset:pts/@probe/zz.json", ParseError::UnknownOption("zz".to_string())),
        ("/@dataset:pts/@probe/.json", ParseError::ActionWithoutOptions("probe".to_string())),
        ("/@dataset:pts/@probe/val.json", ParseError::EmptyOptionValue("val".to_string())),
        ("/@dataset:pts/@probe/val:.json", ParseError::EmptyOptionValue("val".to_string())),
        ("/@dataset:pts/@probe/aa:1.json", ParseError::WrongParameterCount("aa".to_string())),
        ("/@dataset:pts/@probe/aa,aa.json", ParseError::RepeatedOption("aa".to_string())),
        ("/@dataset:pts/@probe/aa,a.json", ParseError::RepeatedOption("aa".to_string())),
    ];
    for (url, expected) in cases {
        assert_eq!(parse(url, &test_grammar()), Err(expected));
    }
}

#[test]
fn an_action_survives_an_archive_sub_path() {
    let out = parse("/@dataset:uk:gb.shp/@probe/aa.json", &test_grammar()).unwrap();
    assert_eq!(out.path.as_deref(), Some("gb.shp"));
    assert_eq!(out.actions.len(), 1, "the sub-path swallowed the action");
}

#[test]
fn an_action_buried_behind_a_download_name_is_rejected_not_dropped() {
    for url in [
        "/@dataset:uk:gb.shp/extra/@probe/aa.json",
        "/@dataset:uk:gb.shp/a/b/@p/aa.json",
    ] {
        assert_eq!(parse(url, &test_grammar()), Err(ParseError::MisplacedAction("probe".to_string())));
    }
}

#[test]
fn a_download_name_that_buries_no_registered_action_is_still_accepted() {
    let out = parse("/@dataset:uk:gb.shp/extra/@nope/aa.json", &test_grammar()).unwrap();
    assert_eq!(out.path.as_deref(), Some("gb.shp"));
    assert!(out.actions.is_empty());
}

#[test]
fn an_at_prefixed_name_with_a_slash_is_read_as_an_action_not_a_filename() {
    assert_eq!(
        parse("/@dataset:pts/@a/b.json", &Grammar::built_in()),
        Err(ParseError::UnknownAction("a".to_string())),
        "an unknown action must not fall through to the filename slot"
    );
}

#[test]
fn exactly_the_cap_is_accepted() {
    let actions: String = (0..MAX_ACTIONS).map(|_| "/@probe/aa".to_string()).collect();
    let out = parse(&format!("/@dataset:x{actions}.json"), &test_grammar()).unwrap();
    assert_eq!(out.actions.len(), MAX_ACTIONS);

    let g = many_options();
    let options: Vec<&str> = OPTION_NAMES.iter().take(MAX_OPTIONS).copied().collect();
    let out = parse(&format!("/@dataset:x/@probe/{}.json", options.join(",")), &g).unwrap();
    assert_eq!(out.actions[0].segments.len(), MAX_OPTIONS);
}

#[test]
fn a_download_name_that_looks_like_a_source_does_not_swallow_the_action() {
    let cases: Vec<(&str, &str)> = vec![
        ("/@dataset:uk:gb.shp/@probe/aa/report.shp.json", "gb.shp"),
        ("/@dataset:uk:gb.shp/@probe/aa/report.json", "gb.shp"),
        ("/@dataset:uk:gb.shp/@probe/aa.json", "gb.shp"),
        ("/@dataset:uk:a/b.geojson/c.shp/@probe/aa/out.shp.json", "a/b.geojson/c.shp"),
        ("/@dataset:uk:member/@probe/aa.json", "member"),
    ];
    for (url, path) in cases {
        let out = parse(url, &test_grammar()).unwrap();
        assert_eq!(out.path.as_deref(), Some(path));
        assert_eq!(out.actions.len(), 1, "the action was lost: {out:?}");
        assert_eq!(out.actions[0].segments[0].name, "aa");
    }
}

#[test]
fn the_sub_path_stops_at_the_first_action_not_the_last() {
    let out = parse("/@dataset:uk:gb.shp/@probe/val:x.shp/@probe/bb/out.json", &test_grammar()).unwrap();
    assert_eq!(out.path.as_deref(), Some("gb.shp"));
    assert_eq!(out.actions.len(), 2, "an option value ending in .shp moved the boundary: {out:?}");
}

#[test]
fn a_sub_path_that_is_only_an_action_marker_is_an_empty_source_value() {
    assert_eq!(parse("/@dataset:uk:/@probe/aa.json", &test_grammar()), Err(ParseError::EmptySourceValue));
}

#[test]
fn a_registered_action_without_options_is_not_a_filename() {
    let err = parse("/@dataset:pts/@probe.json", &test_grammar()).unwrap_err();
    assert_eq!(err, ParseError::ActionWithoutOptions("probe".to_string()));
}

#[test]
fn a_download_filename_may_still_start_with_an_at_sign() {
    let out = parse("/@dataset:uk/@2024-export.geojson", &test_grammar()).unwrap();
    assert_eq!(out.dataset, "uk");
    assert!(out.actions.is_empty(), "a filename is not an action");
}

#[test]
fn an_action_may_be_followed_by_a_download_filename() {
    let out = parse("/@dataset:pts/@probe/aa/meta.json", &test_grammar()).unwrap();
    assert_eq!(out.actions.len(), 1);
    assert_eq!(out.dataset, "pts");
}

#[test]
fn a_geometry_predicate_applies_alongside_an_action() {
    let cases: Vec<(&str, &str)> = vec![
        ("/@dataset:pts,type:Point/@probe/aa.json", "type"),
        ("/@dataset:pts,valid:true/@probe/aa.json", "valid"),
    ];
    for (url, filter) in cases {
        let out = parse(url, &test_grammar()).unwrap();
        assert_eq!(out.filters.len(), 1);
        assert_eq!(out.filters[0].name, filter);
        assert_eq!(out.actions.len(), 1);
    }
}

#[test]
fn filters_still_apply_alongside_an_action() {
    let out = parse("/@dataset:pts,id:1/@probe/aa.json", &test_grammar()).unwrap();
    assert_eq!(out.filters.len(), 1);
    assert_eq!(out.actions.len(), 1);
}

#[test]
fn a_tilde_quoted_value_containing_an_action_marker_is_not_an_action() {
    let out = parse("/@dataset:pts,prop:name:~a/@probe~/@probe/aa.json", &test_grammar()).unwrap();
    assert_eq!(out.filters[0].params[1], "~a/@probe~");
    assert_eq!(out.actions.len(), 1, "only the real action counts");
}

#[test]
fn more_than_ten_actions_is_rejected() {
    let many: String = (0..MAX_ACTIONS + 1).map(|_| "/@probe/aa".to_string()).collect();
    assert_eq!(parse(&format!("/@dataset:x{many}.json"), &test_grammar()), Err(ParseError::TooManyActions));
}

#[test]
fn more_than_twenty_options_is_rejected() {
    let g = many_options();
    let many: Vec<&str> = OPTION_NAMES.iter().take(MAX_OPTIONS + 1).copied().collect();
    let url = format!("/@dataset:x/@probe/{}.json", many.join(","));
    assert_eq!(parse(&url, &g), Err(ParseError::TooManyOptions));
}

const OPTION_NAMES: [&str; 21] = [
    "o0", "o1", "o2", "o3", "o4", "o5", "o6", "o7", "o8", "o9", "o10", "o11", "o12", "o13", "o14", "o15", "o16",
    "o17", "o18", "o19", "o20",
];

#[test]
fn parses_dataset_and_format() {
    let cases: Vec<(&str, &str, &str)> = vec![
        ("/@dataset:plz-5stellig.json", "plz-5stellig", "json"),
        ("/@dataset:cities.GeoJSON", "cities", "geojson"),
        ("/@dataset:my.data.geojson", "my.data", "geojson"),
    ];
    for (url, dataset, format) in cases {
        let p = parse(url, &Grammar::built_in()).unwrap();
        assert_eq!(p.dataset, dataset);
        assert_eq!(p.extension, format);
    }
}

#[test]
fn parses_path_and_options() {
    let cases: Vec<(&str, &str, Option<&str>)> = vec![
        ("/@dataset:x.geojson", "UTF-8", None),
        ("/@dataset:x,enc:csISOLatin1.geojson", "ISO-8859-1", None),
        ("/@dataset:x,enc:KOI8-R.geojson", "KOI8-R", None),
        ("/@dataset:x:a/b/c.shp,encoding:utf-8.geojson", "UTF-8", Some("a/b/c.shp")),
        ("/@dataset:uk:gb.geojson.geojson", "UTF-8", Some("gb.geojson")),
    ];
    for (url, encoding, path) in cases {
        let p = parse(url, &Grammar::built_in()).unwrap();
        assert_eq!(p.encoding, encoding);
        assert_eq!(p.path.as_deref(), path);
    }
}

#[test]
fn the_filename_segment_is_discarded() {
    let cases: Vec<(&str, &str, Option<&str>, &str)> = vec![
        ("/@dataset:plz-5stellig/output.geojson", "plz-5stellig", None, "UTF-8"),
        ("/@dataset:plz-5stellig/map.geojson", "plz-5stellig", None, "UTF-8"),
        ("/@dataset:plz-5stellig.geojson", "plz-5stellig", None, "UTF-8"),
        ("/@dataset:a/b/c.json", "a", None, "UTF-8"),
        ("/@dataset:a/.json", "a", None, "UTF-8"),
        ("/@dataset:a/b.c.d.json", "a", None, "UTF-8"),
        ("/@dataset:x,enc:iso-8859-1/output.geojson", "x", None, "ISO-8859-1"),
        ("/@dataset:x:a/b/c.shp,enc:iso-8859-1/output.geojson", "x", Some("a/b/c.shp"), "ISO-8859-1"),
        ("/@dataset:uk:gb.geojson/download.geojson", "uk", Some("gb.geojson"), "UTF-8"),
        ("/@dataset:uk:gb.geojson,enc:utf-8/download.geojson", "uk", Some("gb.geojson"), "UTF-8"),
        ("/@dataset:uk:ds/ds.gdb/download.geojson", "uk", Some("ds/ds.gdb"), "UTF-8"),
        ("/@dataset:uk:a/b.geojson/c.shp/name.geojson", "uk", Some("a/b.geojson/c.shp"), "UTF-8"),
        ("/@dataset:uk:layer.shp/report.geojson", "uk", Some("layer.shp"), "UTF-8"),
        ("/@dataset:uk:layer.shp/report.json.geojson", "uk", Some("layer.shp/report.json"), "UTF-8"),
        ("/@dataset:uk:nothing/readable.geojson", "uk", Some("nothing/readable"), "UTF-8"),
    ];
    for (url, dataset, path, encoding) in cases {
        let p = parse(url, &Grammar::built_in()).unwrap();
        assert_eq!(p.dataset, dataset);
        assert_eq!(p.path.as_deref(), path);
        assert_eq!(p.encoding, encoding);
    }
}

#[test]
fn the_short_source_prefix_parses_the_same() {
    let cases: Vec<(&str, &str)> = vec![
        ("/@ds:cities.geojson", "/@dataset:cities.geojson"),
        ("/@ds:plz-5stellig/output.json", "/@dataset:plz-5stellig/output.json"),
        ("/@ds:x,enc:iso-8859-1/out.geojson", "/@dataset:x,enc:iso-8859-1/out.geojson"),
        ("/@ds:uk:gb.geojson/download.geojson", "/@dataset:uk:gb.geojson/download.geojson"),
    ];
    for (short, long) in cases {
        assert_eq!(parse(short, &Grammar::built_in()).unwrap(), parse(long, &Grammar::built_in()).unwrap());
    }
}

#[test]
fn rejects() {
    let cases: Vec<(&str, ParseError)> = vec![
        ("/", ParseError::Empty),
        ("/@dataset:cities", ParseError::MissingOutputSegment),
        ("/@dataset:cities.xml", ParseError::UnknownFormat("xml".to_string())),
        ("/@elsewhere:thing.json", ParseError::UnknownSource("elsewhere".to_string())),
        ("/@d:thing.json", ParseError::UnknownSource("d".to_string())),
        ("/@datasets:thing.json", ParseError::UnknownSource("datasets".to_string())),
        ("/dataset:cities.json", ParseError::MissingSourcePrefix),
        ("/@dataset:.json", ParseError::EmptySourceValue),
        ("/@dataset.geojson", ParseError::EmptySourceValue),
        ("/@dataset:x,enc:KOI8@8.geojson", ParseError::MalformedEncoding("KOI8@8".to_string())),
        ("/@dataset:pts/export,enc:iso-8859-1.geojson", ParseError::MisplacedOption("export,enc:iso-8859-1".to_string())),
        ("/@dataset:x,enc:.geojson", ParseError::EmptyOptionValue("enc".to_string())),
        ("/@dataset:x,enc.geojson", ParseError::EmptyOptionValue("enc".to_string())),
        ("/@dataset:x,encoding/out.geojson", ParseError::EmptyOptionValue("encoding".to_string())),
        ("/@dataset:x,enc:utf-8:extra.geojson", ParseError::OptionTakesOneValue("enc".to_string())),
        ("/@dataset:x,id:.geojson", ParseError::EmptyOptionValue("id".to_string())),
        ("/@ds:pts,id:~2/export.geojson", ParseError::UnbalancedValue("~2/export".to_string())),
        ("/@dataset:pts,id:~1,enc:latin1.geojson", ParseError::UnbalancedValue("~1,enc:latin1".to_string())),
        ("/@dataset:pts,id:(a~b).geojson", ParseError::UnbalancedValue("(a~b)".to_string())),
        ("/@dataset:pts,id:(1,2.geojson", ParseError::UnbalancedValue("(1,2".to_string())),
        ("/@dataset:pts,id:a)b.geojson", ParseError::UnbalancedValue("a)b".to_string())),
        ("/@dataset:pts,id:((((((((((((((((((((((((((((((((((x)))))))))))))))))))))))))))))))))).geojson",
    ParseError::ValueTooDeep("((((((((((((((((((((((((((((((((((x))))))))))))))))))))))))))))))))))".to_string())),
        ("/@dataset:x,id.geojson", ParseError::EmptyOptionValue("id".to_string())),
        ("/@dataset:x,zzz:1.geojson", ParseError::UnknownOption("zzz".to_string())),
        ("/@dataset:gbr:a;b.shp.geojson", ParseError::InvalidPath("a;b.shp".to_string())),
        ("/@dataset:gbr:a b.shp.geojson", ParseError::InvalidPath("a b.shp".to_string())),
    ];
    for (url, expected) in cases {
        assert_eq!(parse(url, &Grammar::built_in()), Err(expected));
    }
}

#[test]
fn a_filter_is_one_segment() {
    let cases: Vec<(&str, &str, Vec<&str>)> = vec![
        ("/@dataset:x,id:(~A, B~,C).geojson", "id", vec!["(~A, B~,C)"]),
        ("/@dataset:x,id:~Armagh City, Banbridge~.geojson", "id", vec!["~Armagh City, Banbridge~"]),
        ("/@dataset:x,id:(1..100).geojson", "id", vec!["(1..100)"]),
        ("/@dataset:x,id:~key:value~.geojson", "id", vec!["~key:value~"]),
        ("/@dataset:x,id:((1,2),(3,4)).geojson", "id", vec!["((1,2),(3,4))"]),
        ("/@dataset:x,id:file-(1..3).txt.geojson", "id", vec!["file-(1..3).txt"]),
    ];
    for (url, name, params) in cases {
        let p = parse(url, &Grammar::built_in()).unwrap();
        assert_eq!(p.filters.len(), 1, "{:?}", p.filters);
        assert_eq!(p.filters[0].name, name);
        assert_eq!(p.filters[0].params, params);
    }
}

#[test]
fn a_prop_filter_keeps_its_parameters() {
    let cases: Vec<(&str, Vec<&str>)> = vec![
        ("/@dataset:x,prop:state:CA.geojson", vec!["state", "CA"]),
        ("/@dataset:x,prop:pop:gt:1000000.geojson", vec!["pop", "gt", "1000000"]),
        ("/@dataset:x,prop:deleted:null.geojson", vec!["deleted", "null"]),
        ("/@dataset:x,prop:name:in:(~A, B~,C).geojson", vec!["name", "in", "(~A, B~,C)"]),
    ];
    for (url, params) in cases {
        let p = parse(url, &Grammar::built_in()).unwrap();
        assert_eq!(p.filters.len(), 1, "{:?}", p.filters);
        assert_eq!(p.filters[0].name, "prop");
        assert_eq!(p.filters[0].params, params);
    }
}

#[test]
fn a_geometry_predicate_keeps_its_one_parameter() {
    let cases: Vec<(&str, &str, &str)> = vec![
        ("/@dataset:x,type:Point.geojson", "type", "Point"),
        ("/@dataset:x,valid:true.geojson", "valid", "true"),
        ("/@dataset:x,empty:false.geojson", "empty", "false"),
        ("/@dataset:x,simple:1.geojson", "simple", "1"),
        ("/@dataset:x,closed:0.geojson", "closed", "0"),
    ];
    for (url, name, value) in cases {
        let p = parse(url, &Grammar::built_in()).unwrap();
        assert_eq!(p.filters.len(), 1, "{:?}", p.filters);
        assert_eq!(p.filters[0].name, name);
        assert_eq!(p.filters[0].params, vec![value]);
    }
}

#[test]
fn filters_may_repeat_and_mix() {
    for url in [
        "/@dataset:x,prop:a:1,prop:b:2.geojson",
        "/@dataset:x,id:gte:5,id:lte:10.geojson",
        "/@dataset:x,id:1,prop:a:2.geojson",
    ] {
        assert_eq!(parse(url, &Grammar::built_in()).unwrap().filters.len(), 2, "{url}");
    }
}

#[test]
fn an_id_filter_may_carry_an_operator() {
    let cases: Vec<(&str, Vec<&str>)> = vec![
        ("/@dataset:x,id:gte:500.geojson", vec!["gte", "500"]),
        ("/@dataset:x,id:lt:1000.geojson", vec!["lt", "1000"]),
        ("/@dataset:x,id:in:(500..1000).geojson", vec!["in", "(500..1000)"]),
        ("/@dataset:x,id:(50..100).geojson", vec!["(50..100)"]),
        ("/@dataset:x,id:50.geojson", vec!["50"]),
    ];
    for (url, params) in cases {
        let p = parse(url, &Grammar::built_in()).unwrap();
        assert_eq!(p.filters[0].name, "id");
        assert_eq!(p.filters[0].params, params);
    }
}

#[test]
fn a_filter_takes_the_parameter_count_its_spec_allows() {
    let cases: Vec<(&str, ParseError)> = vec![
        ("/@dataset:x,prop:only.geojson", ParseError::WrongParameterCount("prop".to_string())),
        ("/@dataset:x,prop:a:b:c:d.geojson", ParseError::WrongParameterCount("prop".to_string())),
        ("/@dataset:x,valid:true:false.geojson", ParseError::WrongParameterCount("valid".to_string())),
        ("/@dataset:x,type:Point:Line.geojson", ParseError::WrongParameterCount("type".to_string())),
        ("/@dataset:x,closed.geojson", ParseError::EmptyOptionValue("closed".to_string())),
        ("/@dataset:x,id:a:b:c.geojson", ParseError::WrongParameterCount("id".to_string())),
        ("/@dataset:x,prop.geojson", ParseError::EmptyOptionValue("prop".to_string())),
    ];
    for (url, expected) in cases {
        assert_eq!(parse(url, &Grammar::built_in()), Err(expected));
    }
}

#[test]
fn more_than_fifty_filters_is_rejected() {
    let many: String = (0..51).map(|i| format!(",prop:k{i}:v")).collect();
    assert_eq!(parse(&format!("/@dataset:x{many}.geojson"), &Grammar::built_in()), Err(ParseError::TooManyFilters));
    let fifty: String = (0..50).map(|i| format!(",prop:k{i}:v")).collect();
    assert_eq!(parse(&format!("/@dataset:x{fifty}.geojson"), &Grammar::built_in()).unwrap().filters.len(), 50);
}

#[test]
fn a_sub_path_does_not_swallow_the_options_after_it() {
    for url in [
        "/@dataset:plz:report~final,enc:latin1.geojson",
        "/@dataset:plz:file(1,enc:latin1.geojson",
    ] {
        let p = parse(url, &Grammar::built_in()).unwrap();
        assert!(!p.path.as_deref().unwrap_or_default().contains("enc:"), "the encoding was swallowed: {p:?}");
        assert_eq!(p.encoding, "ISO-8859-1", "{p:?}");
    }
}

#[test]
fn a_deeply_nested_value_is_refused_before_anything_recurses() {
    let deep = format!("/@dataset:x,id:{}x{}.geojson", "(".repeat(5000), ")".repeat(5000));
    assert!(
        matches!(parse(&deep, &Grammar::built_in()), Err(ParseError::ValueTooDeep(_))),
        "{:?}",
        parse(&deep, &Grammar::built_in())
    );
}

#[test]
fn nesting_up_to_the_limit_is_accepted() {
    let ok = format!("/@dataset:x,id:{}a,b{}.geojson", "(".repeat(32), ")".repeat(32));
    assert!(parse(&ok, &Grammar::built_in()).is_ok(), "{:?}", parse(&ok, &Grammar::built_in()));
}

#[test]
fn an_encoding_comes_before_a_filter_and_not_after() {
    let p = parse("/@dataset:plz,enc:utf-8,id:2257.geojson", &Grammar::built_in()).unwrap();
    assert_eq!(p.encoding, "UTF-8");
    assert_eq!(p.filters.len(), 1, "encoding was collected as a filter: {:?}", p.filters);
    assert_eq!(p.filters[0].name, "id");
    assert_eq!(p.filters[0].params, ["2257"]);

    assert_eq!(
        parse("/@dataset:plz,id:2257,enc:utf-8.geojson", &Grammar::built_in()),
        Err(ParseError::MisplacedSourceOption("enc".to_string()))
    );
}

#[test]
fn an_option_or_filter_may_appear_only_once() {
    let cases: Vec<(&str, &str)> = vec![
        ("/@dataset:x,enc:utf-8,enc:latin1.geojson", "enc"),
        ("/@dataset:x,enc:utf-8,encoding:latin1.geojson", "encoding"),
    ];
    for (url, name) in cases {
        assert_eq!(parse(url, &Grammar::built_in()), Err(ParseError::RepeatedOption(name.to_string())));
    }
}

#[test]
fn each_error_says_what_is_wrong() {
    let cases: Vec<(&str, &str)> = vec![
        ("/", "empty path"),
        ("/@dataset:cities", "missing .<format> suffix"),
        ("/@dataset:cities.xml", "unknown format: xml"),
        ("/dataset:cities.json", "path must start with @"),
        ("/@d:thing.json", "unknown source type: d"),
        ("/@dataset:.json", "source value is empty"),
        ("/@dataset:a b.json", "invalid name: a b"),
        ("/@dataset:x:a;b.json", "path has characters that are not allowed: a;b"),
        ("/@dataset:x,zzz:1.json", "unknown option: zzz"),
        ("/@dataset:x,id:.json", "option has no value: id"),
        ("/@dataset:x,enc:a:b.json", "option takes exactly one value: enc"),
        ("/@dataset:x,id:1,enc:utf-8.json", "source options must come before any filter: enc"),
        ("/@dataset:x,enc:a,enc:b.json", "option given more than once: enc"),
        ("/@dataset:x,enc:K@8.json", "encoding has characters that are not allowed: K@8"),
        ("/@dataset:x,id:a:b:c.json", "filter has the wrong number of parameters: id"),
        ("/@dataset:x,id:(1.json", "value has unbalanced ~ or (): (1"),
        ("/@dataset:x/@nope/aa.json", "unknown action: nope"),
        ("/@dataset:x/@probe.json", "action has no options: probe"),
        ("/@dataset:x/y/@probe/aa.json", "actions must come before the output name: probe"),
        ("/@dataset:x/y,z.json", "options must come before the output name: y,z"),
    ];
    for (url, message) in cases {
        assert_eq!(parse(url, &test_grammar()).unwrap_err().message(), message, "{url}");
    }
    let deep = format!("{}x{}", "(".repeat(33), ")".repeat(33));
    assert_eq!(
        parse(&format!("/@dataset:x,id:{deep}.json"), &test_grammar()).unwrap_err().message(),
        format!("value nests groups more than 32 deep: {deep}")
    );
    assert_eq!(ParseError::<String>::TooManyFilters.message(), "at most 50 filters are allowed");
    assert_eq!(ParseError::<String>::TooManyActions.message(), "at most 10 actions are allowed");
    assert_eq!(ParseError::<String>::TooManyOptions.message(), "at most 20 options are allowed");
}

#[test]
fn a_request_keeps_to_its_limits() {
    let url = format!("/@dataset:x{}{}.json", ",id:1".repeat(MAX_FILTERS), "/@p/a".repeat(MAX_ACTIONS));
    let out = parse(&url, &test_grammar()).unwrap();
    assert_eq!((out.filters.len(), out.actions.len()), (MAX_FILTERS, MAX_ACTIONS));
    assert!(out.filters.iter().all(|f| f.name == "id"));
    assert!(out.actions.iter().all(|a| a.name == "probe" && a.segments.len() == 1));
}

#[test]
fn a_name_is_plainer_than_a_path() {
    for (s, name, path) in [
        ("my.data-1_x", true, true),
        ("a/b", false, true),
        ("a~(b)", false, true),
        ("a b", false, false),
        ("", false, false),
        ("é", false, false),
    ] {
        assert_eq!(is_valid_name(s), name, "{s}");
        assert_eq!(is_valid_path(s), path, "{s}");
    }
}

#[test]
fn the_name_of_a_download_is_taken_off_once() {
    for (path, left) in [
        ("gb.shp/download", "gb.shp"),
        ("a/gb.shp", "a/gb.shp"),
        ("a.shp/b.shp/c", "a.shp/b.shp"),
        ("a/b", "a/b"),
        ("", ""),
    ] {
        let chars: Vec<char> = path.chars().collect();
        let n = trim_filename(&chars);
        assert_eq!(chars[..n].iter().collect::<String>(), left);
        assert_eq!(trim_filename(&chars[..n]), n);
    }
}
