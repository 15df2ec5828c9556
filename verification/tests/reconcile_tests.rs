use filestore::files::FileTypes;
use filestore::reconcile::{
    import_from_store, synthesize_folders, FileRecord, ListedObject, MetaTable,
};

fn obj(key: &str, ct: Option<&str>, size: i64) -> ListedObject {
    ListedObject { key: key.to_string(), content_type: ct.map(|c| c.to_string()), size }
}

#[test]
fn import_derives_path_and_title_from_the_key() {
    let mut t = MetaTable::new();
    let objects = vec![obj("docs/report.pdf", Some("application/pdf"), 10)];
    let n = import_from_store(&mut t, "owner1", "", &objects);
    assert_eq!(n, 1);
    assert_eq!(t.rows[0].path, "docs");
    assert_eq!(t.rows[0].title, "report.pdf");
    assert_eq!(t.rows[0].owner_id, "owner1");
    assert_eq!(t.rows[0].size, 10);
    assert_eq!(t.rows[0].ftype, FileTypes::Pdf);
    assert!(!t.rows[0].is_public);
}

#[test]
fn import_strips_the_listing_prefix() {
    let mut t = MetaTable::new();
    let objects = vec![obj("user1/docs/a.txt", None, 1)];
    let n = import_from_store(&mut t, "owner1", "user1/", &objects);
    assert_eq!(n, 1);
    assert_eq!(t.rows[0].path, "docs");
    assert_eq!(t.rows[0].title, "a.txt");
}

#[test]
fn key_without_separator_has_empty_path() {
    let mut t = MetaTable::new();
    let objects = vec![obj("a.txt", None, 1)];
    import_from_store(&mut t, "owner1", "", &objects);
    assert_eq!(t.rows[0].path, "");
    assert_eq!(t.rows[0].title, "a.txt");
}

#[test]
fn directory_markers_are_skipped() {
    let mut t = MetaTable::new();
    let objects = vec![obj("docs/", None, 0), obj("docs/a.txt", None, 1)];
    let n = import_from_store(&mut t, "owner1", "", &objects);
    assert_eq!(n, 1);
    assert_eq!(t.rows.len(), 1);
    assert_eq!(t.rows[0].title, "a.txt");
}

#[test]
fn type_inference_prefers_stored_content_type_then_extension() {
    let mut t = MetaTable::new();
    let objects = vec![
        obj("a.txt", Some("image/png"), 1),
        obj("b.txt", None, 1),
        obj("noext", None, 1),
    ];
    import_from_store(&mut t, "owner1", "", &objects);
    assert_eq!(t.rows[0].ftype, FileTypes::Png);
    assert_eq!(t.rows[1].ftype, FileTypes::Txt);
    assert_eq!(t.rows[2].ftype, FileTypes::Other("".to_string()));
}

#[test]
fn rerunning_the_import_inserts_nothing() {
    let mut t = MetaTable::new();
    let objects = vec![
        obj("docs/a.txt", None, 1),
        obj("docs/b.txt", None, 2),
        obj("pics/cat.png", Some("image/png"), 3),
    ];
    let first = import_from_store(&mut t, "owner1", "", &objects);
    assert_eq!(first, 3);
    let before = t.rows.clone();
    let second = import_from_store(&mut t, "owner1", "", &objects);
    assert_eq!(second, 0);
    assert_eq!(t.rows, before);
}

#[test]
fn duplicate_keys_in_one_listing_insert_once() {
    let mut t = MetaTable::new();
    let objects = vec![obj("docs/a.txt", None, 1), obj("docs/a.txt", None, 1)];
    let n = import_from_store(&mut t, "owner1", "", &objects);
    assert_eq!(n, 1);
}

#[test]
fn folder_synthesis_builds_every_prefix_in_order() {
    let mut t = MetaTable::new();
    let file = FileRecord {
        id: "f1".to_string(),
        title: "x.txt".to_string(),
        owner_id: "owner1".to_string(),
        size: 1,
        ftype: FileTypes::Txt,
        path: "a/b/c".to_string(),
        is_public: false,
    };
    assert!(t.insert_do_nothing(file));
    let n = synthesize_folders(&mut t, "owner1", false);
    assert_eq!(n, 3);
    assert_eq!(t.rows.len(), 4);
    let folders: Vec<(&str, &str)> = t.rows[1..]
        .iter()
        .map(|r| (r.path.as_str(), r.title.as_str()))
        .collect();
    assert_eq!(folders, vec![("", "a"), ("a", "b"), ("a/b", "c")]);
    for r in &t.rows[1..] {
        assert_eq!(r.ftype, FileTypes::Other("folder".to_string()));
        assert_eq!(r.size, 0);
        assert_eq!(r.owner_id, "owner1");
    }
}

#[test]
fn folder_synthesis_is_idempotent_too() {
    let mut t = MetaTable::new();
    let file = FileRecord {
        id: "f1".to_string(),
        title: "x.txt".to_string(),
        owner_id: "owner1".to_string(),
        size: 1,
        ftype: FileTypes::Txt,
        path: "a/b".to_string(),
        is_public: false,
    };
    t.insert_do_nothing(file);
    let first = synthesize_folders(&mut t, "owner1", false);
    assert_eq!(first, 2);
    let second = synthesize_folders(&mut t, "owner1", false);
    assert_eq!(second, 0);
}

#[test]
fn folder_synthesis_ignores_other_owners_and_empty_paths() {
    let mut t = MetaTable::new();
    let mine = FileRecord {
        id: "f1".to_string(),
        title: "x.txt".to_string(),
        owner_id: "owner1".to_string(),
        size: 1,
        ftype: FileTypes::Txt,
        path: "".to_string(),
        is_public: false,
    };
    let theirs = FileRecord {
        id: "f2".to_string(),
        title: "y.txt".to_string(),
        owner_id: "owner2".to_string(),
        size: 1,
        ftype: FileTypes::Txt,
        path: "deep/dir".to_string(),
        is_public: false,
    };
    t.insert_do_nothing(mine);
    t.insert_do_nothing(theirs);
    let n = synthesize_folders(&mut t, "owner1", false);
    assert_eq!(n, 0);
}
