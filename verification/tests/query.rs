use duckxy::formats::Driver;
use duckxy::query::{
    copy_statement, database_is_invalidated, describe, describe_sql, export_limit, export_outcome,
    geometry_of, install_extensions, parse_bytes, past_limit, read_all, run, source_crs_sql,
    temporary_name, tuning, valid_memory_limit, write_with_driver, Chunks, Export, ExportAction,
    ExportEvent, ExportStage, Installed, NoGeometry, Resolved, Run, RunAction, RunEvent, Slot, Stage,
    Target, Written, CHUNK_BYTES, DEFAULT_EXPORT_LIMIT,
};
use duckxy::sea::render;
use duckxy::sql::PlanError;
use duckxy::Fault;

#[test]
fn a_copy_statement_quotes_the_path_and_lists_every_layer_option() {
    let driver = Driver { name: "KML", file: "kml", options: vec!["a=1", "b=2"] };
    let target = Target { driver, layer: "it's" };
    let held = copy_statement("SELECT 1", "/tmp/it's.kml", &target);
    assert_eq!(
        held,
        "COPY (SELECT 1) TO '/tmp/it''s.kml' WITH (FORMAT GDAL, DRIVER 'KML', LAYER_NAME 'it''s', \
         LAYER_CREATION_OPTIONS ('a=1', 'b=2'))"
    );
}

#[test]
fn a_copy_statement_without_layer_options_says_nothing_about_them() {
    let driver = Driver { name: "FlatGeobuf", file: "fgb", options: vec![] };
    let target = Target { driver, layer: "x" };
    let held = copy_statement("SELECT 1", "/tmp/x.fgb", &target);
    assert_eq!(held, "COPY (SELECT 1) TO '/tmp/x.fgb' WITH (FORMAT GDAL, DRIVER 'FlatGeobuf', LAYER_NAME 'x')");
}

#[test]
fn two_temporary_responses_do_not_share_a_directory() {
    let a = temporary_name(7, 1);
    let b = temporary_name(7, 2);
    assert_ne!(a, b);
    assert_eq!(temporary_name(4711, 0xdeadbeef), "duckxy-4711-deadbeef");
    assert_eq!(temporary_name(0, u64::MAX), format!("duckxy-0-{:x}", u64::MAX));
}

#[test]
fn an_export_limit_reads_its_unit() {
    for (value, bytes) in
        [("512", 512), ("64KB", 64 * 1024), ("2mb", 2 * 1024 * 1024), ("1GiB", 1024 * 1024 * 1024), ("+3B", 3)]
    {
        assert_eq!(parse_bytes(value), Some(bytes), "{value}");
    }
}

#[test]
fn an_unusable_export_limit_is_refused() {
    for value in ["", "0", "-1", "2PB", "banana", "1.5GB", "18446744073709551615KB", "18446744073709551616"] {
        assert_eq!(parse_bytes(value), None, "{value}");
    }
}

#[test]
fn an_export_limit_falls_back_to_the_default() {
    assert_eq!(export_limit(None), DEFAULT_EXPORT_LIMIT);
    assert_eq!(export_limit(Some("banana")), 2147483648);
    assert_eq!(export_limit(Some(" 1KB ")), 1024);
}

#[test]
fn an_export_past_the_limit_is_refused() {
    assert_eq!(export_outcome(false, false, 256, 256), Written::Kept);
    assert_eq!(export_outcome(false, true, 0, 256), Written::Failed);
    let refused = Written::TooLarge(Fault::new(
        413,
        "the response passed the 256 byte export limit; narrow it with a filter".to_string(),
    ));
    assert_eq!(export_outcome(false, false, 257, 256), refused);
    assert_eq!(export_outcome(true, true, 0, 256), refused);
    assert!(past_limit(257, 256) && !past_limit(256, 256));
}

#[test]
fn installing_the_extension_twice_is_harmless() {
    let mut held = Installed { outcome: None };
    install_extensions(&mut held, Some(Ok(()))).unwrap().unwrap();
    install_extensions(&mut held, None).unwrap().unwrap();
}

#[test]
fn the_first_try_to_install_stands() {
    let mut held = Installed { outcome: None };
    assert_eq!(install_extensions(&mut held, None), None);
    assert_eq!(install_extensions(&mut held, Some(Err("offline".to_string()))), Some(Err("offline".to_string())));
    assert_eq!(install_extensions(&mut held, Some(Ok(()))), Some(Err("offline".to_string())));
}

#[test]
fn the_encoding_reaches_sql_as_an_escaped_literal() {
    let sql = render(&read_all("/x.geojson", "UTF-8', bogus='1"));
    assert!(!sql.contains("bogus='1'"), "the encoding closed the literal: {sql}");
    assert!(sql.contains("open_options=list_value("), "{sql}");
}

#[test]
fn only_a_number_with_a_unit_is_a_usable_memory_limit() {
    for (value, usable) in [
        ("1GB", true),
        ("512MB", true),
        ("1.5GB", true),
        ("512MiB", true),
        ("1073741824", true),
        ("9ZZ", false),
        ("1.5.5GB", false),
        ("1..GB", false),
        ("1GBB", false),
        ("GB", false),
        ("80%", true),
        ("", false),
        ("   ", false),
        ("abc", false),
        ("%", false),
        ("-1GB", false),
    ] {
        assert_eq!(valid_memory_limit(value.trim()), usable, "{value}");
    }
}

#[test]
fn only_usable_settings_tune_the_database() {
    assert_eq!(tuning(None, None), "");
    assert_eq!(tuning(Some(" 1GB "), Some("4")), "SET memory_limit = '1GB';SET threads = 4;");
    assert_eq!(tuning(Some("lots"), Some("+2")), "SET threads = +2;");
    for threads in ["0", "65536", "-1", "", "two"] {
        assert_eq!(tuning(None, Some(threads)), "", "{threads}");
    }
}

fn causes(message: &str) -> Vec<String> {
    vec!["run query".to_string(), message.to_string()]
}

#[test]
fn only_an_invalidated_database_is_detected() {
    for (message, expected) in [
        ("FATAL Error: Failed: database has been invalidated because of a previous fatal error.", true),
        ("FATAL Error: Failed to create checkpoint because of error: Checkpoint aborted before truncate", true),
        ("INTERNAL Error: Attempted to dereference unique_ptr that is NULL", true),
        ("Invalid Input Error: TopologyException: side location conflict at 0.5 0.5", false),
        ("Invalid Input Error: AssertionFailedException: Should never reach here", false),
        ("Out of Memory Error: failed to allocate data of size 128.0 MiB", false),
        ("Conversion Error: Could not convert string to double", false),
    ] {
        assert_eq!(database_is_invalidated(&causes(message)), expected, "{message}");
    }
}

#[test]
fn an_invalidated_database_is_replaced_on_the_next_query() {
    let mut slot = Slot::new();
    assert!(slot.acquire(), "the first query opens a connection");
    assert!(!slot.release(None));
    assert!(!slot.acquire(), "the connection should be visible on the next query");

    let err = causes("FATAL Error: Failed: database has been invalidated because of a previous fatal error.");
    assert!(database_is_invalidated(&err));
    assert!(slot.release(Some(&err)));

    assert!(slot.acquire(), "the invalidated database was reused");
}

#[test]
fn an_ordinary_error_keeps_the_connection() {
    let mut slot = Slot::new();
    slot.acquire();
    let err = causes("Invalid Input Error: TopologyException");
    assert!(!database_is_invalidated(&err));
    assert!(!slot.release(Some(&err)));
    assert!(!slot.acquire(), "an ordinary error must not discard the connection");
}

fn column(name: &str, kind: &str) -> (Option<String>, Option<String>) {
    (Some(name.to_string()), Some(kind.to_string()))
}

#[test]
fn describe_returns_every_column_with_its_type() {
    let columns = describe(vec![
        column("name", "VARCHAR"),
        (None, Some("BIGINT".to_string())),
        (Some("x".to_string()), None),
        column("geom", "GEOMETRY"),
    ]);
    let names: Vec<&str> = columns.iter().map(|(n, _)| n.as_str()).collect();
    assert!(names.contains(&"name"), "{names:?}");
    assert_eq!(names, ["name", "geom"]);
    assert_eq!(geometry_of(&columns), Some("geom"));
}

#[test]
fn geometry_of_returns_none_without_a_geometry_column() {
    let columns = vec![("id".to_string(), "BIGINT".to_string())];
    assert_eq!(geometry_of(&columns), None);
}

#[test]
fn a_geometry_type_may_carry_more_than_its_name() {
    let columns = vec![
        ("id".to_string(), "BIGINT".to_string()),
        ("shape".to_string(), "GEOMETRY('EPSG:4326')".to_string()),
        ("geom".to_string(), "GEOMETRY".to_string()),
    ];
    assert_eq!(geometry_of(&columns), Some("shape"));
}

fn resolved(source: &str) -> Resolved {
    Resolved { raw: format!("@dataset:{source}"), source: source.to_string(), encoding: "UTF-8".to_string() }
}

#[test]
fn a_nested_dataset_is_described_after_the_outer_one() {
    let mut held = Run::new(resolved("/outer.geojson"), vec![resolved("/a.geojson"), resolved("/b.geojson")], ",");
    let described = |action: RunAction, source: &str| match action {
        RunAction::Describe(sql) => assert_eq!(sql, describe_sql(source, "UTF-8")),
        _ => panic!("{source} is described"),
    };
    let located = |action: RunAction, source: &str| match action {
        RunAction::ReadCrs(sql) => assert_eq!(sql, source_crs_sql(source)),
        _ => panic!("the reference system of {source} is read"),
    };
    let columns = |name: &str| RunEvent::Described(vec![column(name, "GEOMETRY")]);
    described(run(&mut held, RunEvent::Started), "/outer.geojson");
    located(run(&mut held, columns("o")), "/outer.geojson");
    described(run(&mut held, RunEvent::CrsRead(Some("EPSG:3857".to_string()))), "/a.geojson");
    located(run(&mut held, columns("a")), "/a.geojson");
    described(run(&mut held, RunEvent::CrsRead(None)), "/b.geojson");
    located(run(&mut held, columns("b")), "/b.geojson");
    assert!(matches!(run(&mut held, RunEvent::CrsRead(Some("EPSG:4326".to_string()))), RunAction::Plan));
    let known: Vec<(&str, &str, Option<&str>)> = held
        .sources
        .described
        .iter()
        .map(|d| (d.raw.as_str(), d.columns[0].0.as_str(), d.crs.as_deref()))
        .collect();
    assert_eq!(
        known,
        vec![
            ("@dataset:/outer.geojson", "o", Some("EPSG:3857")),
            ("@dataset:/a.geojson", "a", None),
            ("@dataset:/b.geojson", "b", Some("EPSG:4326")),
        ]
    );
}

#[test]
fn a_nested_dataset_needs_a_geometry() {
    let mut held = Run::new(resolved("/outer.geojson"), vec![resolved("/a.geojson")], ",");
    run(&mut held, RunEvent::Started);
    run(&mut held, RunEvent::Described(vec![column("geom", "GEOMETRY")]));
    run(&mut held, RunEvent::CrsRead(None));
    let action = run(&mut held, RunEvent::Described(vec![column("id", "BIGINT")]));
    assert!(matches!(action, RunAction::Fail(PlanError::NoGeometry)));
    assert_eq!(NoGeometry.message(), "source has no geometry column");
}

#[test]
fn a_source_is_asked_for_its_columns_and_its_reference_system() {
    assert_eq!(
        describe_sql("/x.geojson", "UTF-8"),
        "SELECT column_name, column_type FROM (DESCRIBE SELECT * FROM ST_Read('/x.geojson', \
         open_options=list_value('ENCODING=UTF-8')) AS \"src\")"
    );
    assert_eq!(
        source_crs_sql("/x.geojson"),
        "SELECT COALESCE(nullif(crs.auth_name, '') || ':' || nullif(crs.auth_code, ''), nullif(crs.wkt, '')) \
         FROM (SELECT unnest(layers).geometry_fields[1].crs AS \"crs\" FROM ST_Read_Meta('/x.geojson') AS \"meta\") \
         AS \"meta_crs\" LIMIT 1"
    );
}

fn started() -> Run {
    let mut held = Run::new(resolved("/x.geojson"), vec![], ",");
    assert!(matches!(run(&mut held, RunEvent::Started), RunAction::Describe(_)));
    assert!(matches!(
        run(&mut held, RunEvent::Described(vec![column("geom", "GEOMETRY")])),
        RunAction::ReadCrs(_)
    ));
    assert!(matches!(run(&mut held, RunEvent::CrsRead(Some("EPSG:3857".to_string()))), RunAction::Plan));
    assert_eq!(held.sources.described[0].crs.as_deref(), Some("EPSG:3857"));
    match run(&mut held, RunEvent::Planned(Ok("SELECT 1".to_string()))) {
        RunAction::Prepare(sql) => assert_eq!(sql, "SELECT 1"),
        _ => panic!("a planned query is prepared"),
    }
    assert!(matches!(run(&mut held, RunEvent::Prepared), RunAction::BeReady));
    held
}

#[test]
fn a_source_without_a_geometry_column_is_reported_as_such() {
    let mut held = Run::new(resolved("/x.geojson"), vec![], ",");
    assert!(matches!(run(&mut held, RunEvent::Started), RunAction::Describe(_)));
    let action = run(&mut held, RunEvent::Described(vec![column("id", "BIGINT"), column("name", "VARCHAR")]));
    assert!(
        matches!(action, RunAction::Fail(PlanError::NoGeometry)),
        "a source with no geometry must not reach the ready signal"
    );
    assert_eq!(held.stage, Stage::Done);
}

#[test]
fn a_query_that_cannot_be_planned_is_reported() {
    let mut held = Run::new(resolved("/x.geojson"), vec![], ",");
    assert!(matches!(run(&mut held, RunEvent::Started), RunAction::Describe(_)));
    run(&mut held, RunEvent::Described(vec![column("geom", "GEOMETRY")]));
    run(&mut held, RunEvent::CrsRead(None));
    let action = run(&mut held, RunEvent::Planned(Err(PlanError::Message("no".to_string()))));
    assert!(matches!(action, RunAction::Fail(PlanError::Message(_))));
}

fn streamed(rows: &[Option<String>], mut sink: impl FnMut(String) -> bool) -> usize {
    let mut held = started();
    let mut reading = rows.iter();
    let mut read = 0;
    let mut event = None;
    loop {
        let next = match event.take() {
            Some(event) => event,
            None => match reading.next() {
                Some(row) => {
                    read += 1;
                    RunEvent::Row(row.clone())
                }
                None => RunEvent::NoMoreRows,
            },
        };
        match run(&mut held, next) {
            RunAction::Fetch => {}
            RunAction::Send(chunk) => event = Some(RunEvent::Sent(sink(chunk))),
            RunAction::Stop => return read,
            _ => panic!("reading rows asks for nothing else"),
        }
    }
}

#[test]
fn a_sink_returning_false_stops_the_scan() {
    let rows: Vec<Option<String>> = (0..2000).map(|i| Some(format!("{{\"f\":{i},\"pad\":\"{}\"}}", "x".repeat(200)))).collect();
    let mut stopped_after = 0;
    let read = streamed(&rows, |_| {
        stopped_after += 1;
        false
    });
    assert_eq!(stopped_after, 1, "scan continued after the sink asked it to stop");
    assert!(read < rows.len(), "rows were read that nobody asked for");

    let mut chunks = 0;
    let read = streamed(&rows, |_| {
        chunks += 1;
        true
    });
    assert!(chunks > 1, "fixture too small to exercise chunking: {chunks} chunk");
    assert_eq!(read, rows.len());
}

#[test]
fn the_chunks_are_the_rows_with_a_separator_between_two() {
    let rows: Vec<Option<String>> = (0..1500)
        .map(|i| if i % 7 == 0 { None } else { Some(format!("{i}é{}", "y".repeat(i % 300))) })
        .collect();
    let expected = rows.iter().flatten().cloned().collect::<Vec<_>>().join(",");
    let mut sent: Vec<String> = Vec::new();
    streamed(&rows, |chunk| {
        sent.push(chunk);
        true
    });
    for chunk in &sent[..sent.len() - 1] {
        assert!(chunk.len() >= CHUNK_BYTES, "a chunk was sent early");
    }
    assert_eq!(sent.concat(), expected);
}

#[test]
fn nothing_is_sent_of_no_rows() {
    assert_eq!(streamed(&[], |_| panic!("an empty source has no chunk")), 0);
    assert_eq!(streamed(&[None, None], |_| panic!("a null row has no text")), 2);
    assert_eq!(Chunks::new(",").finish(), None);
    let mut chunks = Chunks::new(",");
    assert_eq!(chunks.push(Some("a")), None);
    assert_eq!(chunks.push(None), None);
    assert_eq!(chunks.push(Some("b")), None);
    assert_eq!(chunks.finish(), Some("a,b".to_string()));
}

fn exporting() -> Export<'static> {
    let driver = Driver { name: "KML", file: "kml", options: vec![] };
    let target = Target { driver, layer: "pts" };
    let mut held = Export::new(resolved("/x.geojson"), vec![], target, "/tmp/out.kml", 100);
    assert!(matches!(write_with_driver(&mut held, ExportEvent::Started), ExportAction::Describe(_)));
    assert!(matches!(
        write_with_driver(&mut held, ExportEvent::Described(vec![column("geom", "GEOMETRY")])),
        ExportAction::ReadCrs(_)
    ));
    assert!(matches!(write_with_driver(&mut held, ExportEvent::CrsRead(None)), ExportAction::Plan));
    match write_with_driver(&mut held, ExportEvent::Planned(Ok("SELECT 1".to_string()))) {
        ExportAction::Copy(sql) => assert_eq!(
            sql,
            "COPY (SELECT 1) TO '/tmp/out.kml' WITH (FORMAT GDAL, DRIVER 'KML', LAYER_NAME 'pts')"
        ),
        _ => panic!("a planned export is copied"),
    }
    held
}

#[test]
fn a_driver_output_serves_the_whole_file() {
    let mut held = exporting();
    assert!(matches!(
        write_with_driver(&mut held, ExportEvent::Copied { stopped: false, failed: false, size: 100 }),
        ExportAction::Look
    ));
    assert!(matches!(write_with_driver(&mut held, ExportEvent::Looked(false)), ExportAction::BeReady));
    match write_with_driver(&mut held, ExportEvent::Read(vec![1, 2])) {
        ExportAction::Send(bytes) => assert_eq!(bytes, vec![1, 2]),
        _ => panic!("bytes that were read are sent"),
    }
    assert!(matches!(write_with_driver(&mut held, ExportEvent::Sent(true)), ExportAction::Read));
    assert!(matches!(write_with_driver(&mut held, ExportEvent::Read(vec![])), ExportAction::Stop));
    assert_eq!(held.stage, ExportStage::Done);
}

#[test]
fn a_driver_that_writes_several_files_fails_before_it_is_ready() {
    let mut held = exporting();
    write_with_driver(&mut held, ExportEvent::Copied { stopped: false, failed: false, size: 1 });
    match write_with_driver(&mut held, ExportEvent::Looked(true)) {
        ExportAction::FailSeveral(message) => assert_eq!(
            message,
            "the KML driver wrote a dataset of several files, which cannot be served alone"
        ),
        _ => panic!("several files cannot be served"),
    }
}

#[test]
fn a_driver_that_fails_or_writes_too_much_is_reported() {
    let mut held = exporting();
    assert!(matches!(
        write_with_driver(&mut held, ExportEvent::Copied { stopped: false, failed: true, size: 0 }),
        ExportAction::FailDatabase
    ));
    let mut held = exporting();
    match write_with_driver(&mut held, ExportEvent::Copied { stopped: true, failed: true, size: 0 }) {
        ExportAction::FailLarge(fault) => {
            assert_eq!(fault.status, 413);
            assert!(fault.message.contains("narrow it"), "{}", fault.message);
        }
        _ => panic!("a stopped export is too large"),
    }
    let driver = Driver { name: "KML", file: "kml", options: vec![] };
    let target = Target { driver, layer: "attrs" };
    let mut held = Export::new(resolved("/x.geojson"), vec![], target, "/tmp/out.kml", 100);
    assert!(matches!(write_with_driver(&mut held, ExportEvent::Started), ExportAction::Describe(_)));
    assert!(matches!(
        write_with_driver(&mut held, ExportEvent::Described(vec![column("id", "BIGINT")])),
        ExportAction::Fail(PlanError::NoGeometry)
    ));
}
