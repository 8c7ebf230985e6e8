use duckxy::dataset::{
    locate, looks_like_source, pick_entry, DatasetRoot, Entry, Listing, ResolveError,
};

fn listing(entries: &[(&str, bool)]) -> Option<Listing> {
    Some(Listing {
        root: Some("/srv/data".to_string()),
        entries: entries.iter().map(|(name, is_dir)| Entry { name: name.to_string(), is_dir: *is_dir }).collect(),
    })
}

fn root() -> DatasetRoot {
    DatasetRoot::new("/srv/data".to_string())
}

fn plain(entries: &[(&str, bool)], path: Option<&str>) -> Result<String, ResolveError> {
    root().resolve(listing(entries), "ds", path, |file| -> Option<Vec<String>> {
        panic!("{file} is no archive and must not be opened")
    })
}

fn archived(archive: &str, members: &[&str], path: Option<&str>) -> Result<String, ResolveError> {
    root().resolve(listing(&[(archive, false)]), "ds", path, |file| {
        assert_eq!(file, format!("/srv/data/{archive}"));
        Some(members.iter().map(|m| m.to_string()).collect())
    })
}

#[test]
fn a_plain_file_wins_over_other_extensions_and_is_not_wrapped() {
    let resolved = plain(&[("ds.gpkg", false), ("ds.geojson", false)], None).unwrap();
    assert!(resolved.ends_with("ds.geojson"), "{resolved}");
    assert!(!resolved.starts_with("/vsizip/"), "{resolved}");
}

#[test]
fn nothing_resolves_to_a_dataset() {
    for filename in ["ds.tar.zip", "ds.parquet", ""] {
        let entries: Vec<(&str, bool)> = if filename.is_empty() { vec![] } else { vec![(filename, false)] };
        assert!(matches!(plain(&entries, None), Err(ResolveError::NotFound(_))), "{filename}");
    }
}

#[test]
fn invalid_root_returns_invalid_root() {
    let root = DatasetRoot::new("/nonexistent/duckxy-root-xyz".to_string());
    assert!(matches!(root.resolve(None, "x", None, |_| None), Err(ResolveError::InvalidRoot(_))));
}

#[test]
fn resolves_and_opens_a_path_inside_an_archive() {
    let cases: Vec<(&str, Vec<&str>, &str)> = vec![
        ("ds.zip", vec!["thing.geojson"], "thing.geojson"),
        (
            "ds.kml.zip",
            vec!["__MACOSX/._thing.geojson", "meta.json", "a/b/c/thing.geojson"],
            "a/b/c/thing.geojson",
        ),
        ("ds.fgb.zip", vec!["._thing.geojson", "thing.geojson"], "thing.geojson"),
        ("ds.gml.zip", vec!["a/._thing.geojson", "a/thing.geojson"], "a/thing.geojson"),
    ];
    for (archive, members, expected) in cases {
        let resolved = archived(archive, &members, None).expect(archive);
        assert_eq!(resolved, format!("/vsizip//srv/data/{archive}/{expected}"));
    }
}

#[test]
fn two_members_of_the_same_kind_are_picked_by_name() {
    let resolved =
        archived("ds.zip", &["zebra.geojson", "alpha.geojson", "deep/aaa.geojson"], None).expect("resolve");
    assert!(resolved.ends_with("/alpha.geojson"), "{resolved}");
}

#[test]
fn an_unreadable_archive_is_not_reported_as_empty() {
    let err = root().resolve(listing(&[("ds.zip", false)]), "ds", None, |_| None).unwrap_err();
    assert!(matches!(err, ResolveError::UnreadableArchive(_)), "{err:?}");
}

#[test]
fn an_archive_with_nothing_readable_is_reported() {
    assert!(matches!(
        archived("ds.zip", &["ds.dbf", "ds.prj", "ds.shx"], None),
        Err(ResolveError::EmptyArchive(_))
    ));
}

#[test]
fn an_explicit_path_overrides_the_priority_order() {
    for (want, expected) in [(Some("A/B/TWO.GeoJSON"), "a/b/two.geojson"), (None, "one.geojson")] {
        let resolved = archived("ds.zip", &["one.geojson", "a/b/two.geojson"], want).expect("resolve");
        assert!(resolved.ends_with(&format!("/{expected}")), "{resolved}");
    }
}

#[test]
fn an_exact_archive_member_wins_over_a_case_variant() {
    for (want, expected) in
        [("a.geojson", "a.geojson"), ("A.geojson", "A.geojson"), ("A.GEOJSON", "A.geojson")]
    {
        let resolved = archived("ds.zip", &["A.geojson", "a.geojson"], Some(want)).expect(want);
        assert!(resolved.ends_with(&format!("/{expected}")), "{resolved}");
    }
}

#[test]
fn an_unknown_path_lists_what_the_archive_holds() {
    let err = archived("ds.zip", &["one.geojson"], Some("nope.shp")).unwrap_err();
    let ResolveError::PathNotFound { candidates, .. } = &err else { panic!("{err:?}") };
    assert_eq!(candidates, &["one.geojson"]);
}

#[test]
fn an_unknown_path_lists_no_more_than_twenty() {
    let members: Vec<String> = (0..30).map(|i| format!("m{i}.geojson")).collect();
    let members: Vec<&str> = members.iter().map(String::as_str).collect();
    let err = archived("ds.zip", &members, Some("nope")).unwrap_err();
    let ResolveError::PathNotFound { candidates, .. } = &err else { panic!("{err:?}") };
    assert_eq!(candidates, &members[..20]);
}

#[test]
fn selecting_a_path_inside_a_plain_dataset_is_rejected() {
    let err = plain(&[("ds.geojson", false)], Some("x.shp")).unwrap_err();
    assert!(matches!(err, ResolveError::NotAnArchive(_)), "{err:?}");
}

#[test]
fn a_geodatabase_directory_inside_an_archive_is_selectable() {
    for members in [
        ["ds/ds.gdb/", "ds/ds.gdb/a00000001.gdbtable"],
        ["ds/ds.gdb/a00000001.gdbtable", "ds/ds.gdb/a00000001.gdbtablx"],
    ] {
        let resolved = archived("ds.zip", &members, None).expect("resolve");
        assert!(resolved.ends_with("/ds/ds.gdb"), "{resolved}");
    }
}

#[test]
fn a_geodatabase_appears_once_however_many_members_it_holds() {
    let err = archived(
        "ds.zip",
        &["ds.gdb/a00000001.gdbtable", "ds.gdb/a00000002.gdbtable", "ds.gdb/timestamps"],
        Some("nope"),
    )
    .unwrap_err();
    let ResolveError::PathNotFound { candidates, .. } = &err else { panic!("{err:?}") };
    assert_eq!(candidates, &["ds.gdb"]);
}

#[test]
fn a_symlinked_geodatabase_resolves() {
    let resolved = plain(&[("elsewhere", true), ("ds.gdb", true)], None).expect("resolve");
    assert!(resolved.ends_with("ds.gdb"), "{resolved}");
}

#[test]
fn a_file_of_the_wrong_kind_is_passed_over() {
    assert!(matches!(plain(&[("ds.gdb", false)], None), Err(ResolveError::NotFound(_))));
    let resolved = plain(&[("ds.geojson", true), ("ds.shp", false)], None).unwrap();
    assert_eq!(resolved, "/srv/data/ds.shp");
}

#[test]
fn the_filename_case_does_not_have_to_match() {
    for filename in ["DS.GeoJSON", "ds.GEOJSON"] {
        assert_eq!(plain(&[(filename, false)], None).expect(filename), format!("/srv/data/{filename}"));
    }
}

#[test]
fn an_exact_spelling_wins_over_a_case_variant() {
    let entries = vec![
        Entry { name: "ds.SHP".to_string(), is_dir: false },
        Entry { name: "ds.shp".to_string(), is_dir: false },
    ];
    assert_eq!(pick_entry(&entries, "ds.shp").map(|e| e.name.as_str()), Some("ds.shp"));
}

#[test]
fn a_case_variant_is_picked_the_same_way_whatever_the_listing_order() {
    for names in [["DS.GeoJSON", "ds.GEOJSON"], ["ds.GEOJSON", "DS.GeoJSON"]] {
        let entries: Vec<Entry> =
            names.iter().map(|n| Entry { name: n.to_string(), is_dir: false }).collect();
        assert_eq!(pick_entry(&entries, "ds.geojson").map(|e| e.name.as_str()), Some("DS.GeoJSON"));
    }
}

#[test]
fn a_root_that_cannot_be_written_down_finds_nothing() {
    let listing = Listing { root: None, entries: vec![Entry { name: "ds.shp".to_string(), is_dir: false }] };
    assert_eq!(
        root().resolve(Some(listing), "ds", None, |_| None),
        Err(ResolveError::NotFound("ds.shp".to_string()))
    );
}

#[test]
fn the_root_directory_joins_without_a_second_slash() {
    let listing =
        Listing { root: Some("/".to_string()), entries: vec![Entry { name: "ds.shp".to_string(), is_dir: false }] };
    assert_eq!(root().resolve(Some(listing), "ds", None, |_| None), Ok("/ds.shp".to_string()));
}

#[test]
fn a_plain_file_comes_before_an_archive() {
    let entries: Vec<Entry> = ["ds.zip", "ds.json.zip", "ds.json"]
        .iter()
        .map(|n| Entry { name: n.to_string(), is_dir: false })
        .collect();
    assert_eq!(locate(&entries, "ds"), Some(("ds.json".to_string(), false)));
    assert_eq!(locate(&entries[..2], "ds"), Some(("ds.json.zip".to_string(), true)));
    assert_eq!(locate(&entries[..1], "ds"), Some(("ds.zip".to_string(), true)));
}

#[test]
fn a_source_is_known_by_its_extension() {
    for (segment, expected) in
        [("a.shp", true), ("a.GeoJSON", true), (".gdb", true), ("shp", false), ("a.zip", false), ("", false)]
    {
        assert_eq!(looks_like_source(segment), expected, "{segment}");
    }
}
