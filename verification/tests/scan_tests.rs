use libfunk::EngineRoot;
use libfunk::ScanEntry;
use libfunk::load_or_create;
use libfunk::metadata::MetaError;
use libfunk::metadata::Modpack;

const TEMPLATE_JSON: &str =
    "{\"display_name\":\"Template\",\"source_code\":null,\"website\":null,\"authors\":null}";
const BETA_JSON: &str = "{\"display_name\":\"Beta\",\"authors\":\"Team B\"}";

fn dir(name: &str, sidecar: Option<&str>) -> ScanEntry {
    ScanEntry {
        name: String::from(name),
        is_dir: true,
        sidecar: sidecar.map(String::from),
    }
}

fn file(name: &str) -> ScanEntry {
    ScanEntry { name: String::from(name), is_dir: false, sidecar: None }
}

#[test]
fn load_or_create_absent_creates_template() {
    let loaded = load_or_create(&None).unwrap();
    assert!(loaded.created);
    assert_eq!(loaded.metadata.display_name, "Template");
    assert_eq!(loaded.contents, TEMPLATE_JSON);
}

#[test]
fn load_or_create_present_reads_verbatim() {
    let loaded = load_or_create(&Some(String::from(BETA_JSON))).unwrap();
    assert!(!loaded.created);
    assert_eq!(loaded.metadata.display_name, "Beta");
    assert_eq!(loaded.metadata.authors.as_deref(), Some("Team B"));
    assert_eq!(loaded.contents, BETA_JSON);
}

#[test]
fn load_or_create_malformed_fails() {
    assert!(matches!(
        load_or_create(&Some(String::from("not json"))),
        Err(MetaError::Malformed)
    ));
}

#[test]
fn scan_counts_directories_only() {
    let entries = vec![
        dir("a", None),
        file("notes.txt"),
        dir("b", None),
        file("x.bin"),
        file("y"),
        dir("c", None),
    ];
    let outcome = EngineRoot::builder()
        .location(String::from("/root"))
        .build(&entries)
        .unwrap();
    assert_eq!(outcome.root.engine_count(), 3);
    assert_eq!(outcome.writes.len(), 3);
}

#[test]
fn scan_scenario_two_engines_and_a_file() {
    let entries = vec![dir("A", None), dir("B", Some(BETA_JSON)), file("notes.txt")];
    let outcome = EngineRoot::builder()
        .location(String::from("/data"))
        .build(&entries)
        .unwrap();
    let root = outcome.root;
    assert_eq!(root.engine_count(), 2);
    assert_eq!(root.location, "/data");
    assert_eq!(root.selected(), 0);

    let a = root.engine(0);
    assert_eq!(a.root, "A");
    assert_eq!(a.metadata.display_name, "Template");
    assert!(a.versions.is_empty());
    assert!(a.modpacks.is_empty());

    let b = root.engine(1);
    assert_eq!(b.root, "B");
    assert_eq!(b.metadata.display_name, "Beta");
    assert_eq!(b.metadata.authors.as_deref(), Some("Team B"));
    assert_eq!(b.metadata.source_code, None);
    assert_eq!(b.metadata.website, None);

    assert_eq!(outcome.writes.len(), 1);
    assert_eq!(outcome.writes[0].dir_name, "A");
    assert_eq!(outcome.writes[0].contents, TEMPLATE_JSON);
}

#[test]
fn scan_of_empty_listing_is_an_empty_catalog() {
    let entries: Vec<ScanEntry> = Vec::new();
    let outcome = EngineRoot::builder()
        .location(String::from("/fresh"))
        .build(&entries)
        .unwrap();
    assert_eq!(outcome.root.engine_count(), 0);
    assert!(outcome.writes.is_empty());
}

#[test]
fn scan_aborts_on_malformed_sidecar() {
    let entries = vec![dir("A", None), dir("C", Some("{invalid")), dir("B", Some(BETA_JSON))];
    let r = EngineRoot::builder().location(String::from("/data")).build(&entries);
    assert!(matches!(r, Err(MetaError::Malformed)));
}

#[test]
fn scan_twice_is_idempotent() {
    let first = vec![dir("A", None), dir("B", Some(BETA_JSON)), file("notes.txt")];
    let outcome = EngineRoot::builder()
        .location(String::from("/data"))
        .build(&first)
        .unwrap();
    assert_eq!(outcome.writes.len(), 1);

    // The second listing is the first after its writes landed on disk.
    let second = vec![
        dir("A", Some(&outcome.writes[0].contents)),
        dir("B", Some(BETA_JSON)),
        file("notes.txt"),
    ];
    let again = EngineRoot::builder()
        .location(String::from("/data"))
        .build(&second)
        .unwrap();
    assert!(again.writes.is_empty());
    assert_eq!(again.root.engine_count(), outcome.root.engine_count());
    for i in 0..again.root.engine_count() {
        let x = outcome.root.engine(i);
        let y = again.root.engine(i);
        assert_eq!(x.root, y.root);
        assert_eq!(x.metadata, y.metadata);
    }
}

#[test]
fn resolve_joins_the_location() {
    let entries = vec![dir("A", None), dir("B", Some(BETA_JSON))];
    let outcome = EngineRoot::builder()
        .location(String::from("/data"))
        .build(&entries)
        .unwrap();
    let p = outcome.root.resolve(0, true).unwrap();
    assert_eq!(p, "/data/A");
}

#[test]
fn resolve_missing_names_the_right_engine() {
    let entries = vec![dir("A", None), dir("B", Some(BETA_JSON))];
    let outcome = EngineRoot::builder()
        .location(String::from("/data"))
        .build(&entries)
        .unwrap();
    let err = outcome.root.resolve(1, false).unwrap_err();
    assert_eq!(err.display_name, "Beta");
}

#[test]
fn set_selected_validates_bounds() {
    let entries = vec![dir("A", None), dir("B", None)];
    let outcome = EngineRoot::builder()
        .location(String::from("/data"))
        .build(&entries)
        .unwrap();
    let mut root = outcome.root;
    assert_eq!(root.selected(), 0);
    assert!(root.set_selected(1));
    assert_eq!(root.selected(), 1);
    assert!(!root.set_selected(2));
    assert_eq!(root.selected(), 1);
}

#[test]
fn modpack_equality_is_structural() {
    let a = Modpack {
        display_name: String::from("pack"),
        version: String::from("1.0"),
        brief: String::from("a pack"),
    };
    let b = Modpack {
        display_name: String::from("pack"),
        version: String::from("1.0"),
        brief: String::from("a pack"),
    };
    let c = Modpack {
        display_name: String::from("pack"),
        version: String::from("2.0"),
        brief: String::from("a pack"),
    };
    assert_eq!(a, b);
    assert_ne!(a, c);
}
