use duckxy::parexp::{as_integer_range, count, expand, split_top_level, Parexp, MAX_EXPANSION};

/// As many rows as the database asks the table function for at a time.
const VECTOR: usize = 2048;

fn rows_of(pattern: &str) -> Vec<String> {
    let bind = Parexp::bind(pattern);
    let mut init = Parexp::init();
    let mut rows = Vec::new();
    while let Some((from, to)) = Parexp::func(&bind, &mut init, VECTOR) {
        rows.extend(bind.values[from..to].iter().cloned());
    }
    rows
}

#[test]
fn expands() {
    let cases: Vec<(&str, Vec<&str>)> = vec![
        ("plain", vec!["plain"]),
        ("(a,b,c)", vec!["a", "b", "c"]),
        ("(1,2,5,7)", vec!["1", "2", "5", "7"]),
        ("(1,2,5,7,11,13)", vec!["1", "2", "5", "7", "11", "13"]),
        ("(CA,NY,TX,WA)", vec!["CA", "NY", "TX", "WA"]),
        ("(1..5)", vec!["1", "2", "3", "4", "5"]),
        ("(01..03)", vec!["01", "02", "03"]),
        ("(1..10..2)", vec!["1", "3", "5", "7", "9"]),
        ("(5..1)", vec!["5", "4", "3", "2", "1"]),
        ("(a..d)", vec!["a", "b", "c", "d"]),
        ("(1_000..1_003)", vec!["1000", "1001", "1002", "1003"]),
        ("file-(1..3).txt", vec!["file-1.txt", "file-2.txt", "file-3.txt"]),
        ("(x,y)-(1..2)", vec!["x-1", "x-2", "y-1", "y-2"]),
        ("(~A, B~,C)", vec!["A, B", "C"]),
        ("~Armagh City, Banbridge~", vec!["Armagh City, Banbridge"]),
        ("(1..3,7)", vec!["1..3", "7"]),
        ("(unmatched", vec!["(unmatched"]),
        ("(1..5..0)", vec!["1..5..0"]),
        ("a(b,c)d", vec!["abd", "acd"]),
        ("a(b(c,d),e)f", vec!["abcf", "abdf", "aef"]),
        ("", vec![""]),
        ("a(hello,)b", vec!["ahellob", "ab"]),
        ("a(,hello)b", vec!["ab", "ahellob"]),
        ("a(1..3)b", vec!["a1b", "a2b", "a3b"]),
        ("file(01..03).txt", vec!["file01.txt", "file02.txt", "file03.txt"]),
        ("(d..a)", vec!["d", "c", "b", "a"]),
        ("a(b..d)e", vec!["abe", "ace", "ade"]),
        ("prefix-(1..3)", vec!["prefix-1", "prefix-2", "prefix-3"]),
        ("(a,b)-suffix", vec!["a-suffix", "b-suffix"]),
        ("pre-(a,b)-suf", vec!["pre-a-suf", "pre-b-suf"]),
        ("file-(01..03).txt", vec!["file-01.txt", "file-02.txt", "file-03.txt"]),
        ("x(y,z)w(a,b)", vec!["xywa", "xywb", "xzwa", "xzwb"]),
        ("v(1..2).(0..1)", vec!["v1.0", "v1.1", "v2.0", "v2.1"]),
        ("((1..3))", vec!["1", "2", "3"]),
        ("((a,b,c))", vec!["a", "b", "c"]),
        ("(((1..2)))", vec!["1", "2"]),
        ("(1,5..7,10)", vec!["1", "5..7", "10"]),
        ("(1,(5..7),10)", vec!["1", "5", "6", "7", "10"]),
        ("file-(~a,b~).txt", vec!["file-a,b.txt"]),
        ("prefix-~(a,b)~", vec!["prefix-(a,b)"]),
        ("a~)~b", vec!["a)b"]),
        ("~~x~~", vec!["x"]),
        ("(~a~,~b~)", vec!["a", "b"]),
        ("~a~-(1..2)", vec!["a-1", "a-2"]),
    ];
    for (pattern, expected) in cases {
        assert_eq!(expand(pattern), expected, "{pattern}");
    }
}

#[test]
fn a_wide_numeric_range_is_not_zero_padded() {
    assert_eq!(expand("(1..100)"), (1..=100).map(|n| n.to_string()).collect::<Vec<_>>());
}

#[test]
fn expansion_truncates_at_the_cap() {
    for (pattern, first, last) in [
        ("(1..10000)", "1", "10000"),
        ("(1..100000)", "1", "10000"),
        ("(1..1000000)", "1", "10000"),
    ] {
        let out = expand(pattern);
        assert_eq!(out.len(), MAX_EXPANSION, "{pattern}");
        assert_eq!(out.first().map(String::as_str), Some(first), "{pattern}");
        assert_eq!(out.last().map(String::as_str), Some(last), "{pattern}");
    }
}

#[test]
fn a_wider_end_operand_does_not_zero_pad() {
    for (pattern, head) in [("(1..10..2)", vec!["1", "3", "5", "7", "9"]), ("(1..100)", vec!["1", "2"])] {
        let out = expand(pattern);
        assert_eq!(out[..head.len()], head[..], "{pattern}");
    }
}

#[test]
fn an_i64_boundary_range_does_not_overflow() {
    for (pattern, expected) in [
        ("(9223372036854775807..9223372036854775807)", 1),
        ("(9223372036854775806..9223372036854775807)", 2),
    ] {
        assert_eq!(expand(pattern).len(), expected, "{pattern}");
    }
}

#[test]
fn recognises_an_exact_integer_range() {
    let cases: Vec<(&str, Option<(i64, i64)>)> = vec![
        ("(1..100)", Some((1, 100))),
        ("(1_000..10_000)", Some((1000, 10000))),
        ("(100..1)", Some((1, 100))),
        ("(9007199254740993..9007199254740993)", Some((9007199254740993, 9007199254740993))),
        ("(a..z)", None),
        ("(1..10..2)", None),
        ("(1,2,3)", None),
        ("prefix(1..5)", None),
        ("(~1..5~)", None),
        ("plain", None),
        ("(1..1e400)", None),
        ("(inf..100)", None),
        ("(1..nan)", None),
        ("(-5.5..10.5)", None),
        ("(0.5..1.5)", None),
        ("(01..01)", None),
        ("(01..03)", None),
        ("(-5..10)", None),
        ("(+5..10)", None),
        ("(5..-10)", None),
    ];
    for (pattern, expected) in cases {
        assert_eq!(as_integer_range(pattern), expected, "{pattern}");
    }
}

#[test]
fn counts_without_expanding() {
    for (pattern, expected) in [
        ("plain", 1),
        ("(a,b,c)", 3),
        ("(1..5)", 5),
        ("(1..10..2)", 5),
        ("(a..d)", 4),
        ("(x,y)-(1..2)", 4),
        ("(1..1000000)", 1000000),
        ("a(b(c,d),e)f", 3),
        ("(-5..10)", 1),
    ] {
        assert_eq!(count(pattern), expected, "{pattern}");
        if expected <= MAX_EXPANSION {
            assert_eq!(expand(pattern).len(), expected, "count disagrees with expand for {pattern}");
        }
    }
}

#[test]
fn a_group_count_that_overflows_saturates_rather_than_wrapping() {
    let huge = "(0..9223372036854775807)";
    let pattern = format!("({huge},{huge})");
    assert_eq!(count(&pattern), usize::MAX, "the sum wrapped and bypassed the cap");
}

#[test]
fn sequential_groups_do_not_exhaust_the_nesting_budget() {
    for leading in [4, 31, 40, 200] {
        let pattern = format!("{}(b,c)", "(a)".repeat(leading));
        let expected = vec![format!("{}b", "a".repeat(leading)), format!("{}c", "a".repeat(leading))];
        assert_eq!(count(&pattern), 2, "count wrong after {leading} sequential groups");
        assert_eq!(expand(&pattern), expected, "expand wrong after {leading} sequential groups");
    }
}

#[test]
fn sequential_groups_cost_no_stack() {
    let pattern = format!("{}(b,c)", "(a)".repeat(20_000));
    assert_eq!(count(&pattern), 2);
    assert_eq!(expand(&pattern).len(), 2);
}

#[test]
fn nesting_past_the_limit_degrades_to_a_literal_rather_than_overflowing() {
    let deep = format!("{}x{}", "(".repeat(5_000), ")".repeat(5_000));
    assert_eq!(count(&deep), 1);
    assert_eq!(expand(&deep).len(), 1);
}

#[test]
fn counting_a_pathological_pattern_stays_cheap() {
    let pattern = "(a,b)".repeat(200);
    let started = std::time::Instant::now();
    assert!(count(&pattern) > MAX_EXPANSION);
    assert!(started.elapsed().as_millis() < 100, "counting took {:?}", started.elapsed());
}

#[test]
fn the_table_function_returns_the_expansion() {
    for (pattern, expected) in
        [("(1..5)", "1,2,3,4,5"), ("(01..03)", "01,02,03"), ("(CA,NY)", "CA,NY"), ("(~A, B~,C)", "A, B,C")]
    {
        assert_eq!(rows_of(pattern).join(","), expected);
    }
}

#[test]
fn a_count_projects_no_columns_and_must_not_read_one() {
    let bind = Parexp::bind("(1..5)");
    let mut init = Parexp::init();
    let mut n = 0;
    while let Some((from, to)) = Parexp::func(&bind, &mut init, VECTOR) {
        n += to - from;
    }
    assert_eq!(n.to_string(), "5");
}

#[test]
fn the_table_function_handles_a_large_expansion() {
    assert_eq!(rows_of("(1..10000)").len().to_string(), "10000");
}

#[test]
fn every_row_is_handed_out_once() {
    for capacity in [1, 3, 7, 2048] {
        let bind = Parexp::bind("(1..100)");
        let mut init = Parexp::init();
        let mut rows = Vec::new();
        while let Some((from, to)) = Parexp::func(&bind, &mut init, capacity) {
            assert!(to - from <= capacity);
            rows.extend(from..to);
        }
        assert_eq!(rows, (0..100).collect::<Vec<_>>());
    }
}

#[test]
fn an_integer_range_is_its_expansion() {
    for pattern in ["(3..9)", "(9..3)", "(7..7)"] {
        let (lo, hi) = as_integer_range(pattern).unwrap();
        let mut values: Vec<i64> = expand(pattern).iter().map(|v| v.parse().unwrap()).collect();
        values.sort();
        assert_eq!(values, (lo..=hi).collect::<Vec<_>>(), "{pattern}");
    }
}

#[test]
fn tildes_quote_whatever_they_enclose() {
    for inner in ["(a,b)", "1..3", "a,b", "((", ""] {
        assert_eq!(expand(&format!("~{inner}~")), vec![inner.to_string()]);
    }
}

#[test]
fn no_value_holds_a_tilde_whatever_the_pattern() {
    for pattern in ["~a~", "a~b", "~", "~~", "(~a,b~,c~)", "x~(1..3)", "(a,(b~,~c~))~d", "~(~1..2~)~", "(a..c)~"] {
        assert!(expand(pattern).iter().all(|value| !value.contains('~')), "{pattern}: {:?}", expand(pattern));
    }
}

#[test]
fn an_integer_range_counts_what_lies_between_its_ends() {
    for (pattern, n) in [("(1..3)", 3), ("(7..7)", 1), ("(9..5)", 5), ("(1..1000000)", 1_000_000)] {
        let (lo, hi) = as_integer_range(pattern).unwrap();
        assert_eq!(hi - lo + 1, n);
        assert_eq!(count(pattern), n as usize);
    }
}

#[test]
fn the_parts_of_a_text_make_it_up() {
    for (text, parts) in [
        ("", vec![""]),
        ("a,b", vec!["a", "b"]),
        ("a,(b,c),~d,e~,f", vec!["a", "(b,c)", "~d,e~", "f"]),
        (",", vec!["", ""]),
        ("a),b", vec!["a)", "b"]),
    ] {
        let chars: Vec<char> = text.chars().collect();
        let cut: Vec<String> = split_top_level(&chars).iter().map(|part| part.iter().collect()).collect();
        assert_eq!(cut, parts);
        assert_eq!(cut.join(","), text);
        for part in split_top_level(&chars) {
            assert_eq!(split_top_level(&part), vec![part]);
        }
    }
}
