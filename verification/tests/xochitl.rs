use riddle::xochitl::{active_notebook_allowed, Catalog, Entry};

fn item(id: &str, parent: &str, kind: &str, name: &str, opened: Option<&str>, modified: Option<&str>) -> Entry {
    Entry::from_metadata(
        id.to_string(),
        parent.to_string(),
        kind.to_string(),
        name.to_string(),
        opened.map(str::to_string),
        modified.map(str::to_string),
    )
}

fn folder(id: &str, parent: &str, name: &str) -> Entry {
    item(id, parent, "CollectionType", name, None, None)
}

fn doc(id: &str, parent: &str, opened: &str) -> Entry {
    item(id, parent, "DocumentType", id, Some(opened), None)
}

fn library(entries: Vec<Entry>) -> Catalog {
    let mut c = Catalog::new();
    for e in entries {
        c.insert(e);
    }
    c
}

#[test]
fn timestamps_parse_or_count_as_absent() {
    let e = item("a", "", "DocumentType", "a", Some("0"), Some("1700000000000"));
    assert_eq!(e.last_opened, Some(0));
    assert_eq!(e.last_modified, Some(1_700_000_000_000));
    assert_eq!(e.recency(), 1_700_000_000_000);
    let e = item("a", "", "DocumentType", "a", Some(" 12"), Some("x"));
    assert_eq!((e.last_opened, e.last_modified, e.recency()), (None, None, 0));
    let e = item("a", "", "DocumentType", "a", Some("+7"), None);
    assert_eq!(e.recency(), 7);
}

#[test]
fn insert_replaces_same_id() {
    let mut c = Catalog::new();
    c.insert(folder("f", "", "Riddle"));
    c.insert(folder("g", "", "Other"));
    c.insert(folder("f", "", "Renamed"));
    assert_eq!(c.len(), 2);
    assert_eq!(c.get("f").unwrap().visible_name, "Renamed");
    assert!(c.get("h").is_none());
}

#[test]
fn resolves_nested_folder_paths() {
    let c = library(vec![
        folder("f1", "", "Riddle"),
        folder("f2", "f1", "Sub"),
        folder("f3", "", "Sub"),
        folder("f4", "f1", "Riddle"),
    ]);
    assert_eq!(c.resolve_folder_path("Riddle"), vec!["f1".to_string()]);
    assert_eq!(c.resolve_folder_path(" Riddle / Sub /"), vec!["f2".to_string()]);
    assert_eq!(c.resolve_folder_path("Riddle/Riddle"), vec!["f4".to_string()]);
    assert!(c.resolve_folder_path("Missing").is_empty());
    assert!(c.resolve_folder_path("Sub/Riddle").is_empty());
    assert_eq!(c.resolve_folder_path("//"), vec![String::new()]);
}

#[test]
fn guard_disabled_by_empty_folder() {
    let c = Catalog::new();
    assert!(active_notebook_allowed(&c, "  ", true));
}

#[test]
fn only_notebooks_in_the_folder_are_animated() {
    let c = library(vec![
        folder("f1", "", "Riddle"),
        folder("f2", "f1", "Sub"),
        doc("d1", "f2", "100"),
        doc("d2", "", "50"),
    ]);
    assert!(c.documents_walk_end());
    assert!(active_notebook_allowed(&c, "Riddle", true));
    assert!(!active_notebook_allowed(&c, "Riddle", false));
    assert!(active_notebook_allowed(&c, "Riddle/Sub", false));
    assert!(!active_notebook_allowed(&c, "Nowhere", true));
}

#[test]
fn trashed_and_unopened_documents_do_not_count() {
    let c = library(vec![
        folder("f1", "", "Riddle"),
        folder("bin", "trash", "Old"),
        doc("d1", "bin", "900"),
        doc("d2", "f1", "100"),
        item("d3", "", "DocumentType", "d3", Some("0"), None),
    ]);
    assert!(c.is_trashed(c.get("d1").unwrap()));
    assert!(!c.is_trashed(c.get("d2").unwrap()));
    assert_eq!(c.active_document().unwrap().id, "d2");
    assert!(active_notebook_allowed(&c, "Riddle", false));
}

#[test]
fn no_open_document_is_refused() {
    let c = library(vec![folder("f1", "", "Riddle"), item("d", "f1", "DocumentType", "d", None, None)]);
    assert!(c.active_document().is_none());
    assert!(!active_notebook_allowed(&c, "Riddle", true));
}

#[test]
fn fresh_notebook_counts_by_modification() {
    let c = library(vec![
        folder("f1", "", "Riddle"),
        doc("old", "", "500"),
        item("new", "f1", "DocumentType", "new", Some("0"), Some("600")),
    ]);
    assert_eq!(c.active_document().unwrap().id, "new");
    assert!(active_notebook_allowed(&c, "Riddle", true));
}

#[test]
fn parent_cycles_are_detected() {
    let c = library(vec![folder("a", "b", "A"), folder("b", "a", "B"), doc("d", "a", "5")]);
    assert!(!c.documents_walk_end());
    let c = library(vec![folder("a", "missing", "A"), folder("b", "a", "B"), doc("d", "b", "5")]);
    assert!(c.documents_walk_end());
}

#[test]
fn cycles_no_document_reaches_do_not_block_the_guard() {
    let c = library(vec![
        folder("a", "b", "A"),
        folder("b", "a", "B"),
        folder("f1", "", "Riddle"),
        doc("d", "f1", "5"),
    ]);
    assert!(c.documents_walk_end());
    assert!(active_notebook_allowed(&c, "Riddle", true));
    assert!(active_notebook_allowed(&c, "Riddle", false));
    assert!(!active_notebook_allowed(&c, "A", true));
}

#[test]
fn trash_check_stops_at_the_trash_before_a_cycle() {
    let c = library(vec![folder("trash", "x", "T"), folder("x", "trash", "X"), doc("d", "x", "5")]);
    assert!(c.documents_walk_end());
    assert!(c.is_trashed(c.get("d").unwrap()));
    assert!(c.active_document().is_none());
}

#[test]
fn ancestors_stop_at_the_trash() {
    let c = library(vec![folder("f1", "trash", "Riddle"), doc("d", "f1", "5")]);
    let allowed = vec!["f1".to_string()];
    assert!(c.has_ancestor(c.get("d").unwrap(), &allowed));
    let allowed = vec!["trash".to_string()];
    assert!(!c.has_ancestor(c.get("d").unwrap(), &allowed));
}

#[test]
fn subfolder_mode_keeps_direct_notebooks() {
    let c = library(vec![folder("f1", "", "Riddle"), doc("d", "f1", "10")]);
    assert!(active_notebook_allowed(&c, "Riddle", false));
    assert!(active_notebook_allowed(&c, "Riddle", true));
}

#[test]
fn root_path_allows_root_notebooks_only_without_subfolders() {
    let c = library(vec![doc("d", "", "10")]);
    assert!(active_notebook_allowed(&c, "/", false));
    assert!(!active_notebook_allowed(&c, "/", true));
}
