use filestore::files::{FileQuery, FileTypes};
use filestore::reconcile::{FileRecord, MetaTable};
use filestore::upload::{
    build_tag_insert, delete_file, make_file_record, make_put_request, process_part, screen_part,
    Acl, DeleteOutcome, PartOutcome, StoreModel, UploadBatch,
};

fn pics_query() -> FileQuery {
    FileQuery { path: "pics".to_string(), is_public: false, is_folder: false }
}

fn fresh_batch() -> UploadBatch {
    UploadBatch { table: MetaTable::new(), store: StoreModel::new(), orphans: 0 }
}

#[test]
fn put_request_uses_key_acl_and_declared_mime() {
    let q = pics_query();
    let put = make_put_request(&q, "cat.png", Some("image/png"));
    assert_eq!(put.key, "pics/cat.png");
    assert_eq!(put.content_type, "image/png");
    assert_eq!(put.acl, Acl::Private);
}

#[test]
fn public_flag_switches_the_acl() {
    let q = FileQuery { path: "".to_string(), is_public: true, is_folder: false };
    let put = make_put_request(&q, "cat.png", Some("image/png"));
    assert_eq!(put.key, "cat.png");
    assert_eq!(put.acl, Acl::PublicRead);
}

#[test]
fn file_record_carries_the_inferred_type() {
    let q = pics_query();
    let rec = make_file_record("id1", "cat.png", "owner1", 3, Some("image/png"), &q);
    assert_eq!(rec.ftype, FileTypes::Png);
    assert_eq!(rec.ftype.label(), "png");
    assert_eq!(rec.path, "pics");
    assert_eq!(rec.title, "cat.png");
    assert_eq!(rec.size, 3);
    assert!(!rec.is_public);
}

#[test]
fn upload_scenario_stores_object_and_row() {
    let q = pics_query();
    let mut b = fresh_batch();
    let r = process_part(
        &mut b, &q, "file", Some("cat.png"), "id1", "owner1", 3, Some("image/png"), true, false,
        true,
    );
    assert_eq!(r, PartOutcome::Stored { inserted: true });
    assert!(b.store.contains_key("pics/cat.png"));
    assert_eq!(b.table.rows.len(), 1);
    assert_eq!(b.table.rows[0].title, "cat.png");
    assert_eq!(b.table.rows[0].path, "pics");
    assert_eq!(b.table.rows[0].ftype, FileTypes::Png);
    assert_eq!(b.orphans, 0);
}

#[test]
fn duplicate_natural_key_is_silently_skipped() {
    let q = pics_query();
    let mut b = fresh_batch();
    let first = process_part(
        &mut b, &q, "file", Some("cat.png"), "id1", "owner1", 3, Some("image/png"), true, false,
        true,
    );
    assert_eq!(first, PartOutcome::Stored { inserted: true });
    let second = process_part(
        &mut b, &q, "file", Some("cat.png"), "id2", "owner1", 3, Some("image/png"), true, false,
        true,
    );
    assert_eq!(second, PartOutcome::Stored { inserted: false });
    assert_eq!(b.table.rows.len(), 1);
}

#[test]
fn failed_insert_triggers_compensating_delete() {
    let q = pics_query();
    let mut b = fresh_batch();
    let first = process_part(
        &mut b, &q, "file", Some("cat.png"), "id1", "owner1", 3, Some("image/png"), true, false,
        true,
    );
    assert_eq!(first, PartOutcome::Stored { inserted: true });
    // The second part's insert fails on a duplicate identifier; its
    // just-written object is deleted again.
    let second = process_part(
        &mut b, &q, "file", Some("dog.png"), "id1", "owner1", 4, Some("image/png"), true, true,
        true,
    );
    assert_eq!(second, PartOutcome::Compensated);
    assert!(!b.store.contains_key("pics/dog.png"));
    // The first part's row survives the batch.
    assert_eq!(b.table.rows.len(), 1);
    assert_eq!(b.table.rows[0].id, "id1");
    assert_eq!(b.table.rows[0].title, "cat.png");
    assert_eq!(b.orphans, 0);
}

#[test]
fn failed_compensation_counts_an_orphan() {
    let q = pics_query();
    let mut b = fresh_batch();
    let r = process_part(
        &mut b, &q, "file", Some("dog.png"), "id1", "owner1", 4, Some("image/png"), true, true,
        false,
    );
    assert_eq!(r, PartOutcome::OrphanLeft);
    assert!(b.store.contains_key("pics/dog.png"));
    assert_eq!(b.table.rows.len(), 0);
    assert_eq!(b.orphans, 1);
}

#[test]
fn empty_field_name_skips_the_part() {
    let q = pics_query();
    let mut b = fresh_batch();
    let r = process_part(
        &mut b, &q, "", Some("cat.png"), "id1", "owner1", 3, Some("image/png"), true, false, true,
    );
    assert_eq!(r, PartOutcome::Skipped);
    assert_eq!(b.table.rows.len(), 0);
    assert_eq!(b.store.objects.len(), 0);
}

#[test]
fn missing_display_name_skips_the_part() {
    assert_eq!(screen_part("file", None), None);
    assert_eq!(screen_part("file", Some("")), None);
    assert_eq!(screen_part("file", Some("cat.png")), Some("cat.png".to_string()));
}

#[test]
fn failed_put_aborts_only_that_part() {
    let q = pics_query();
    let mut b = fresh_batch();
    let r = process_part(
        &mut b, &q, "file", Some("cat.png"), "id1", "owner1", 3, Some("image/png"), false, false,
        true,
    );
    assert_eq!(r, PartOutcome::PutFailed);
    assert_eq!(b.store.objects.len(), 0);
}

#[test]
fn delete_removes_row_then_object() {
    let q = pics_query();
    let mut b = fresh_batch();
    process_part(
        &mut b, &q, "file", Some("cat.png"), "id1", "owner1", 3, Some("image/png"), true, false,
        true,
    );
    let r = delete_file(&mut b.table, &mut b.store, "id1", "owner1", true);
    assert_eq!(r, DeleteOutcome::Deleted);
    assert_eq!(b.table.rows.len(), 0);
    assert!(!b.store.contains_key("pics/cat.png"));
}

#[test]
fn delete_scopes_to_the_owner() {
    let q = pics_query();
    let mut b = fresh_batch();
    process_part(
        &mut b, &q, "file", Some("cat.png"), "id1", "owner1", 3, Some("image/png"), true, false,
        true,
    );
    let r = delete_file(&mut b.table, &mut b.store, "id1", "somebody-else", true);
    assert_eq!(r, DeleteOutcome::NotFound);
    assert_eq!(b.table.rows.len(), 1);
}

#[test]
fn failed_object_delete_leaves_the_orphan() {
    let q = pics_query();
    let mut b = fresh_batch();
    process_part(
        &mut b, &q, "file", Some("cat.png"), "id1", "owner1", 3, Some("image/png"), true, false,
        true,
    );
    let r = delete_file(&mut b.table, &mut b.store, "id1", "owner1", false);
    assert_eq!(r, DeleteOutcome::ObjectOrphaned);
    assert_eq!(b.table.rows.len(), 0);
    assert!(b.store.contains_key("pics/cat.png"));
}

#[test]
fn tag_insert_builds_numbered_groups_and_trims() {
    let tags = vec![" a ".to_string(), "b".to_string()];
    let (stmt, params) = build_tag_insert(&tags, "u1");
    assert_eq!(
        stmt,
        "INSERT INTO tags (owner_id, title) VALUES ($1, $2), ($1, $3) ON CONFLICT (title, owner_id) DO NOTHING;"
    );
    assert_eq!(params, vec!["u1".to_string(), "a".to_string(), "b".to_string()]);
}

#[test]
fn insert_do_nothing_reports_conflicts() {
    let mut t = MetaTable::new();
    let rec = FileRecord {
        id: "i".to_string(),
        title: "t".to_string(),
        owner_id: "o".to_string(),
        size: 0,
        ftype: FileTypes::Txt,
        path: "p".to_string(),
        is_public: false,
    };
    assert!(t.insert_do_nothing(rec.clone()));
    assert!(!t.insert_do_nothing(rec));
    assert_eq!(t.rows.len(), 1);
}
