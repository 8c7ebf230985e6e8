use duckxy::ast::{Relation, Select, SqlExpr};
use duckxy::formats::{Framing, Output, OutputDef};
use duckxy::grammar::{
    flag, opt, Action, ActionDef, Boolean, Column, Declared, FromParam, GeometryType, Grammar, Operator, Opt,
    Param, ParamError, SegmentDef, StageCtx, Token, Value,
};
use duckxy::sql::{Pipeline, PlanError};
use duckxy::url::{ParsedUrl, Segment};

struct Noop(&'static str, &'static str, fn() -> Vec<Opt>);

impl Action for Noop {
    fn name(&self) -> &'static str {
        self.0
    }
    fn short(&self) -> &'static str {
        self.1
    }
    fn options(&self) -> Vec<Opt> {
        (self.2)()
    }
    fn run(&self, _: &mut StageCtx<'_>, _: &[Segment]) -> Result<(), PlanError> {
        Ok(())
    }
}

fn value() -> Vec<Vec<Param>> {
    vec![vec![Param::Value]]
}

fn one_aa() -> Vec<Opt> {
    vec![opt("aa", "", value())]
}

fn one_bb() -> Vec<Opt> {
    vec![opt("bb", "", value())]
}

fn aa_short() -> Vec<Opt> {
    vec![opt("aa", "a", value())]
}

fn aa_self() -> Vec<Opt> {
    vec![opt("aa", "aa", value())]
}

fn aa_flag() -> Vec<Opt> {
    vec![flag("aa", "")]
}

fn bad_opt() -> Vec<Opt> {
    vec![opt("a/b", "", value())]
}

fn same_twice() -> Vec<Opt> {
    vec![opt("aa", "", value()), opt("aa", "a", value())]
}

fn shared_short() -> Vec<Opt> {
    vec![opt("aa", "a", value()), opt("bb", "a", value())]
}

fn two_same_arity() -> Vec<Opt> {
    vec![opt("aa", "", vec![vec![Param::Value], vec![Param::Column]])]
}

fn no_shape() -> Vec<Opt> {
    vec![opt("aa", "", vec![])]
}

fn no_options() -> Vec<Opt> {
    vec![]
}

struct Probe(Vec<&'static str>, bool);

impl Output for Probe {
    fn extensions(&self) -> Vec<&'static str> {
        self.0.clone()
    }
    fn content_type(&self) -> &'static str {
        "application/x-test"
    }
    fn framing(&self) -> Framing {
        Framing { overrides: self.1, ..Framing::default() }
    }
    fn applies(&self, _: &ParsedUrl) -> bool {
        true
    }
    fn rows(&self, ctx: &mut StageCtx<'_>, _: &ParsedUrl) -> Result<Select, PlanError> {
        Ok(Select::from(SqlExpr::Raw("1".to_string()), Relation::Table(ctx.data())))
    }
}

fn register_output(g: &mut Grammar, output: Probe) {
    let def = OutputDef { output: Box::new(output) };
    if let Some(fault) = g.check_output(&def) {
        panic!("{}", fault.message());
    }
    g.register_output(def);
}

fn register_action(g: &mut Grammar, action: Noop) {
    let def = ActionDef { action: Box::new(action) };
    if let Some(fault) = g.check_action(&def) {
        panic!("{}", fault.message());
    }
    g.register_action(def);
}

fn filter(g: &mut Grammar, name: &'static str, short: &'static str, shapes: Vec<Vec<Param>>) {
    if let Some(fault) = g.check_filter(name, short, &shapes) {
        panic!("{}", fault.message());
    }
    g.filter(name, short, shapes);
}

fn registered(action: Noop) -> Grammar {
    let mut g = Grammar::default();
    register_action(&mut g, action);
    g
}

fn kinds(def: &SegmentDef) -> Vec<Vec<Param>> {
    def.shapes.clone()
}

#[test]
fn the_core_grammar_registers_the_built_in_output() {
    let g = Grammar::built_in();
    assert_eq!(g.outputs.len(), 1);
    assert_eq!(g.outputs[0].output.extensions(), &["geojson", "json"]);
}

#[test]
#[should_panic(expected = "is already claimed")]
fn registering_an_output_over_a_claimed_extension_without_overrides_panics() {
    register_output(&mut Grammar::built_in(), Probe(vec!["json"], false));
}

#[test]
fn an_output_that_declares_the_override_may_share_an_extension() {
    let mut g = Grammar::built_in();
    register_output(&mut g, Probe(vec!["json"], true));
    assert_eq!(g.outputs.len(), 2);
}

#[test]
#[should_panic(expected = "must be lowercase")]
fn registering_an_uppercase_extension_panics() {
    register_output(&mut Grammar::default(), Probe(vec!["GeoJSON"], false));
}

#[test]
#[should_panic(expected = "an output needs at least one extension")]
fn registering_an_output_with_no_extension_panics() {
    register_output(&mut Grammar::default(), Probe(vec![], false));
}

#[test]
fn each_fault_of_an_output_says_what_is_wrong() {
    for (exts, message) in [
        (vec!["a/b"], "name \"a/b\" can never be parsed from a url"),
        (vec![".x"], "extension \".x\" can never be parsed from a url"),
        (vec!["x."], "extension \"x.\" can never be parsed from a url"),
        (vec!["x", "x"], "extension \"x\" is repeated in its own registration"),
        (
            vec!["json"],
            "extension \"json\" is already claimed by an output for [\"geojson\", \"json\"]; an output sharing an \
             extension must declare overrides() and gate itself with applies()",
        ),
        (
            vec!["Json"],
            "extension \"Json\" must be lowercase; lookup lowercases the url, so an uppercase registration can \
             never match",
        ),
    ] {
        let def = OutputDef { output: Box::new(Probe(exts.clone(), false)) };
        let fault = Grammar::built_in().check_output(&def);
        assert_eq!(fault.map(|f| f.message()).as_deref(), Some(message), "{exts:?}");
    }
}

#[test]
fn the_core_grammar_registers_the_built_in_filters() {
    let g = Grammar::built_in();
    let names: Vec<&str> = g.filters.iter().map(SegmentDef::canonical).collect();
    assert_eq!(names, vec!["id", "prop", "type", "valid", "empty", "simple", "closed"]);
}

#[test]
fn the_core_filters_declare_the_kinds_their_parameters_take() {
    let g = Grammar::built_in();
    assert_eq!(
        kinds(g.filter_for("id").unwrap()),
        vec![vec![Param::Value], vec![Param::Operator, Param::Value]]
    );
    assert_eq!(
        kinds(g.filter_for("prop").unwrap()),
        vec![vec![Param::Column, Param::Value], vec![Param::Column, Param::Operator, Param::Value]]
    );
}

#[test]
fn a_geometry_predicate_takes_one_parameter_of_its_own_kind() {
    for (name, kind) in [
        ("type", Param::GeometryType),
        ("valid", Param::Boolean),
        ("empty", Param::Boolean),
        ("simple", Param::Boolean),
        ("closed", Param::Boolean),
    ] {
        assert_eq!(kinds(Grammar::built_in().filter_for(name).unwrap()), vec![vec![kind]]);
    }
}

#[test]
fn a_filter_accepts_only_the_arities_it_registered() {
    for (name, params, accepted) in [
        ("id", 1, true),
        ("id", 2, true),
        ("id", 3, false),
        ("prop", 1, false),
        ("prop", 2, true),
        ("prop", 3, true),
        ("prop", 4, false),
        ("valid", 1, true),
        ("valid", 2, false),
        ("type", 1, true),
        ("type", 2, false),
    ] {
        assert_eq!(Grammar::built_in().filter_for(name).unwrap().accepts(params), accepted);
    }
}

#[test]
fn a_short_name_resolves_to_the_canonical_one() {
    let mut g = Grammar::default();
    filter(&mut g, "property", "prop", vec![vec![Param::Column, Param::Value]]);
    for name in ["property", "prop"] {
        assert_eq!(g.filter_for(name).unwrap().canonical(), "property");
    }
    assert!(g.filter_for("nope").is_none());
    assert!(g.filter_for("p").is_none(), "only one short name is registered");
}

#[test]
#[should_panic(expected = "filter \"id\" is already registered")]
fn registering_a_filter_name_twice_panics() {
    let mut g = Grammar::default();
    filter(&mut g, "id", "", value());
    filter(&mut g, "id", "", value());
}

#[test]
#[should_panic(expected = "filter \"p\" is already registered")]
fn registering_an_alias_that_another_filter_owns_panics() {
    let mut g = Grammar::default();
    filter(&mut g, "prop", "p", vec![vec![Param::Column, Param::Value]]);
    filter(&mut g, "point", "p", value());
}

#[test]
#[should_panic(expected = "short name \"p\" repeats the canonical name")]
fn a_filter_short_name_repeating_its_canonical_one_panics() {
    filter(&mut Grammar::default(), "p", "p", value());
}

#[test]
fn registering_a_reserved_name_is_refused() {
    for name in ["enc", "encoding"] {
        let fault = Grammar::default().check_filter(name, "", &value()).unwrap();
        assert!(fault.message().contains("is reserved for the source encoding"), "{}", fault.message());
    }
}

#[test]
fn registering_a_name_the_scanner_cannot_produce_is_refused() {
    for name in ["", "a:b", "a,b", "a/b"] {
        let fault = Grammar::default().check_filter(name, "", &value()).unwrap();
        assert!(fault.message().contains("can never be parsed from a url"), "{}", fault.message());
    }
}

#[test]
#[should_panic(expected = "a filter shape needs at least one parameter")]
fn registering_a_shape_with_no_parameters_panics() {
    filter(&mut Grammar::default(), "flag", "", vec![vec![]]);
}

#[test]
fn registering_no_shape_is_refused() {
    let fault = Grammar::default().check_filter("flag", "", &vec![]).unwrap();
    assert_eq!(fault.message(), "a filter needs at least one shape");
}

#[test]
fn an_option_declares_the_kinds_its_parameters_take() {
    fn options() -> Vec<Opt> {
        vec![
            flag("none", ""),
            opt("one", "", vec![vec![Param::Value]]),
            opt("flag", "", vec![vec![Param::Boolean]]),
            opt("two", "", vec![vec![Param::Column, Param::Value]]),
            opt("three", "", vec![vec![Param::Column, Param::Operator, Param::Value]]),
        ]
    }
    let g = registered(Noop("test", "", options));
    let def = g.action_for("test").unwrap();
    assert_eq!(def.option("none").unwrap().shapes, vec![Vec::new()]);
    assert_eq!(def.option("one").unwrap().shapes, vec![vec![Param::Value]]);
    assert_eq!(def.option("flag").unwrap().shapes, vec![vec![Param::Boolean]]);
    assert_eq!(def.option("two").unwrap().shapes, vec![vec![Param::Column, Param::Value]]);
    assert_eq!(def.option("three").unwrap().shapes, vec![vec![Param::Column, Param::Operator, Param::Value]]);
}

#[test]
fn an_option_declaring_two_shapes_accepts_both_arities() {
    fn options() -> Vec<Opt> {
        vec![opt("id", "", vec![vec![Param::Value], vec![Param::Column, Param::Value]])]
    }
    let g = registered(Noop("test", "", options));
    let def = g.action_for("test").unwrap();
    assert_eq!(
        def.option("id").unwrap().shapes,
        vec![vec![Param::Value], vec![Param::Column, Param::Value]]
    );
    assert!(def.option("id").unwrap().accepts(1));
    assert!(def.option("id").unwrap().accepts(2));
    assert!(!def.option("id").unwrap().accepts(3));
    assert_eq!(def.option("id").unwrap().shape_for(2), Some(vec![Param::Column, Param::Value]));
    assert_eq!(def.option("id").unwrap().shape_for(3), None);
}

#[test]
fn a_boolean_parameter_reads_the_same_values_the_filters_accept() {
    for (raw, expected) in [
        ("true", Some(true)),
        ("TRUE", Some(true)),
        ("1", Some(true)),
        ("false", Some(false)),
        ("0", Some(false)),
        ("yes", None),
        ("", None),
    ] {
        assert_eq!(Boolean::from_param(raw).map(|b| b.0), expected);
    }
}

#[test]
fn a_geometry_type_parameter_is_held_to_the_known_types() {
    for (raw, expected) in [("Point", Some("POINT")), ("linestring", Some("LINESTRING")), ("Banana", None)] {
        assert_eq!(GeometryType::from_param(raw).map(|t| t.0), expected);
    }
}

#[test]
fn a_parameter_is_held_to_its_kind() {
    assert_eq!(Token::from_param("a-1_b.C").map(|t| t.0).as_deref(), Some("a-1_b.C"));
    assert!(Token::from_param("a b").is_none() && Token::from_param("").is_none() && Token::from_param("é").is_none());
    assert_eq!(Column::from_param("x").map(|c| c.0).as_deref(), Some("x"));
    assert!(Column::from_param("").is_none());
    assert_eq!(Value::from_param("x").map(|c| c.0).as_deref(), Some("x"));
    assert!(Value::from_param("").is_none());
    assert_eq!(Operator::from_param("gt").map(|c| c.0).as_deref(), Some("gt"));
    assert!(Operator::from_param("").is_none());
    for (kind, good, bad) in [
        (Param::Column, "x", ""),
        (Param::Operator, "x", ""),
        (Param::Value, "x", ""),
        (Param::Token, "x", "x y"),
        (Param::Boolean, "1", "2"),
        (Param::GeometryType, "polygon", "box"),
    ] {
        assert!(kind.accepts(good), "{kind:?}");
        assert!(!kind.accepts(bad), "{kind:?}");
    }
    assert_eq!(Token::kind(), Param::Token);
}

#[test]
fn a_parameter_error_counts_from_one() {
    let error = ParamError { at: 1, expected: Param::Boolean, got: "ba\"na".to_string() };
    assert_eq!(error.message(), "parameter 2 expected true or false, got \"ba\\\"na\"");
    let last = ParamError { at: usize::MAX, expected: Param::Token, got: String::new() };
    assert!(last.message().starts_with("parameter 18446744073709551616 expected letters, digits"));
}

#[test]
fn a_stage_reads_the_relation_it_was_given() {
    let columns = vec![("geom".to_string(), "GEOMETRY".to_string())];
    let mut pipeline = Pipeline::source("/x.geojson", "UTF-8", &columns).unwrap();
    let mut ctx = StageCtx::new(&mut pipeline, "test");
    assert_eq!(ctx.geometry(), "geom");
    assert!(ctx.cte("extent").is_none());
    ctx.cte_once("extent", |from| {
        Select::from(SqlExpr::Raw("1".to_string()), Relation::Table(from.to_string()))
    });
    assert!(ctx.cte("extent").is_some());
}

#[test]
#[should_panic(expected = "action \"test\" has no options")]
fn registering_an_action_without_options_panics() {
    registered(Noop("test", "", no_options));
}

#[test]
fn an_action_resolves_its_aliases_to_canonical_names() {
    let g = registered(Noop("test", "p", aa_short));
    let def = g.action_for("test").unwrap();
    assert!(def.matches("test") && def.matches("p"));
    assert_eq!(def.canonical(), "test");
    assert_eq!(def.option("a").unwrap().canonical(), "aa");
    assert!(def.option("zz").is_none());
}

#[test]
#[should_panic(expected = "action \"test\" is already registered")]
fn registering_an_action_name_twice_panics() {
    let mut g = Grammar::default();
    register_action(&mut g, Noop("test", "", one_aa));
    register_action(&mut g, Noop("test", "", one_bb));
}

#[test]
#[should_panic(expected = "action \"p\" is already registered")]
fn registering_an_action_alias_another_action_owns_panics() {
    let mut g = Grammar::default();
    register_action(&mut g, Noop("test", "p", one_aa));
    register_action(&mut g, Noop("point", "p", one_bb));
}

#[test]
#[should_panic(expected = "is already registered on this action")]
fn reusing_an_option_alias_for_a_different_option_panics() {
    registered(Noop("test", "", shared_short));
}

#[test]
#[should_panic(expected = "is already registered on this action")]
fn redeclaring_an_option_with_different_aliases_panics() {
    registered(Noop("test", "", same_twice));
}

#[test]
#[should_panic(expected = "registered two shapes of the same arity")]
fn registering_two_shapes_of_the_same_arity_panics() {
    registered(Noop("test", "", two_same_arity));
}

#[test]
#[should_panic(expected = "short name \"p\" repeats the canonical name")]
fn repeating_an_action_name_inside_one_registration_panics() {
    registered(Noop("p", "p", one_aa));
}

#[test]
#[should_panic(expected = "short name \"aa\" repeats the canonical name")]
fn an_option_whose_short_name_repeats_its_canonical_one_panics() {
    registered(Noop("test", "", aa_self));
}

#[test]
#[should_panic(expected = "can never be parsed from a url")]
fn registering_an_action_name_the_scanner_cannot_produce_panics() {
    registered(Noop("a/b", "", one_aa));
}

#[test]
#[should_panic(expected = "can never be parsed from a url")]
fn registering_an_option_name_the_scanner_cannot_produce_panics() {
    registered(Noop("test", "", bad_opt));
}

#[test]
fn an_option_needs_a_shape() {
    let def = ActionDef { action: Box::new(Noop("test", "", no_shape)) };
    assert_eq!(
        Grammar::default().check_action(&def).map(|f| f.message()).as_deref(),
        Some("option \"aa\" needs at least one shape")
    );
    let def = ActionDef { action: Box::new(Noop("test", "", shared_short)) };
    assert_eq!(
        Grammar::default().check_action(&def).map(|f| f.message()).as_deref(),
        Some("option \"bb\" is already registered on this action as \"aa\"")
    );
}

#[test]
fn a_flag_takes_no_parameters_unlike_a_filter() {
    let g = registered(Noop("test", "", aa_flag));
    let def = g.action_for("test").unwrap();
    assert!(def.option("aa").unwrap().accepts(0));
    assert!(!def.option("aa").unwrap().accepts(1));
}

#[test]
#[should_panic(expected = "can never be parsed from a url")]
fn registering_a_filter_with_no_name_panics() {
    filter(&mut Grammar::default(), "", "", value());
}

#[test]
fn a_registered_name_keeps_its_reading() {
    let mut g = Grammar::built_in();
    let before: Vec<&str> = g.filters.iter().map(SegmentDef::canonical).collect();
    filter(&mut g, "within", "w", value());
    for name in before {
        assert_eq!(g.filter_for(name).unwrap().canonical(), name);
    }
    assert_eq!(g.filter_for("w").unwrap().canonical(), "within");
    register_action(&mut g, Noop("test", "t", one_aa));
    register_action(&mut g, Noop("other", "o", one_bb));
    assert_eq!(g.action_for("t").unwrap().canonical(), "test");
    assert_eq!(g.action_for("o").unwrap().canonical(), "other");
}

#[test]
fn registrations_can_follow_each_other() {
    let mut g = Grammar::default();
    g.filter("aa", "", vec![vec![Param::Value]]).filter("bb", "b", vec![vec![Param::Value]]);
    assert_eq!(g.filters.iter().map(|f| f.name).collect::<Vec<_>>(), vec!["aa", "bb"]);
    assert!(g.filter_for("b").is_some());
}
