//! The upload/delete pipeline: per-part decisions, the object-store model,
//! and the compensation rule that keeps the metadata table and the object
//! store consistent.
//!
//! A part with an empty field name or without a display name is rejected.
//! An accepted part is put under the key built from its path and title,
//! with an access-control setting chosen by the public flag; its metadata
//! row is then inserted with insert-or-skip semantics.  When the insert
//! fails for another reason, a best-effort compensating delete removes the
//! just-written object; a failed compensation leaves an orphan, counted so
//! the reconciliation job's work stays observable.

use vstd::prelude::*;

use crate::files::{content_type_of, infer_type_spec, object_key_spec, FileQuery};
use crate::reconcile::{
    has_key, insert_dn_model, nat_key, recs_model, table_wf, FileRecord, MetaTable, RecordModel,
};
use crate::text::{
    dec_str_of, lemma_str_views_push, str_eq, str_views, trim_ascii, trim_spec, usize_to_dec,
};

verus! {

/// The access-control setting of an object-store put.
#[derive(Debug, Clone, Copy, PartialEq, Eq, Structural)]
pub enum Acl {
    PublicRead,
    Private,
}

/// A fully-decided object-store put: key, content type, and access
/// control.
#[derive(Debug, Clone, PartialEq, Eq)]
pub struct PutRequest {
    pub key: String,
    pub content_type: String,
    pub acl: Acl,
}

/// The display title an accepted part uploads under, if the part is
/// accepted at all: the field name must be non-empty and the part must
/// carry a non-empty file name.
pub open spec fn part_title(field_name: Seq<char>, file_name: Option<Seq<char>>) -> Option<
    Seq<char>,
> {
    if field_name.len() == 0 {
        None
    } else {
        match file_name {
            Some(f) => if f.len() == 0 {
                None
            } else {
                Some(f)
            },
            None => None,
        }
    }
}

/// Screens one part: accepted parts yield their title.
pub fn screen_part(field_name: &str, file_name: Option<&str>) -> (r: Option<String>)
    ensures
        match r {
            Some(t) => part_title(
                field_name@,
                match file_name {
                    Some(f) => Some(f@),
                    None => None,
                },
            ) == Some(t@),
            None => part_title(
                field_name@,
                match file_name {
                    Some(f) => Some(f@),
                    None => None,
                },
            ) is None,
        },
{
    if field_name.unicode_len() == 0 {
        return None;
    }
    match file_name {
        Some(f) => {
            if f.unicode_len() == 0 {
                None
            } else {
                Some(String::from_str(f))
            }
        },
        None => None,
    }
}

/// Builds the put request for an accepted part: the path-and-title key,
/// the content type inferred from the declared MIME or the title, and the
/// access control chosen by the public flag.
pub fn make_put_request(q: &FileQuery, title: &str, declared_mime: Option<&str>) -> (r: PutRequest)
    ensures
        r.key@ == object_key_spec(q.path@, title@),
        r.content_type@ == content_type_of(
            infer_type_spec(
                match declared_mime {
                    Some(m) => Some(m@),
                    None => None,
                },
                title@,
            ),
        ),
        r.acl == (if q.is_public {
            Acl::PublicRead
        } else {
            Acl::Private
        }),
{
    let mut key = q.format_path();
    key.append(title);
    let ftype = crate::files::infer_file_type(declared_mime, title);
    let content_type = String::from_str(ftype.content_type());
    let acl = if q.is_public {
        Acl::PublicRead
    } else {
        Acl::Private
    };
    PutRequest { key, content_type, acl }
}

/// The metadata row an accepted part inserts.
pub open spec fn upload_rec_model(
    id: Seq<char>,
    title: Seq<char>,
    owner: Seq<char>,
    size: int,
    mime: Option<Seq<char>>,
    path: Seq<char>,
    is_public: bool,
) -> RecordModel {
    RecordModel {
        id,
        title,
        owner_id: owner,
        size,
        ftype: infer_type_spec(mime, title),
        path,
        is_public,
    }
}

/// Builds the metadata row for an accepted part.
pub fn make_file_record(
    id: &str,
    title: &str,
    owner: &str,
    size: i64,
    declared_mime: Option<&str>,
    q: &FileQuery,
) -> (r: FileRecord)
    ensures
        r@ == upload_rec_model(
            id@,
            title@,
            owner@,
            size as int,
            match declared_mime {
                Some(m) => Some(m@),
                None => None,
            },
            q.path@,
            q.is_public,
        ),
{
    FileRecord {
        id: String::from_str(id),
        title: String::from_str(title),
        owner_id: String::from_str(owner),
        size,
        ftype: crate::files::infer_file_type(declared_mime, title),
        path: q.path.clone(),
        is_public: q.is_public,
    }
}

/// Whether some entry of `v` has the view `k`.
pub open spec fn key_in(v: Seq<String>, k: Seq<char>) -> bool {
    exists|i: int| 0 <= i < v.len() && (#[trigger] v[i])@ == k
}

/// The set of keys a store holds.
pub open spec fn store_keys(v: Seq<String>) -> Set<Seq<char>> {
    Set::new(|k: Seq<char>| key_in(v, k))
}

/// No key appears twice.
pub open spec fn store_wf(v: Seq<String>) -> bool {
    forall|i: int, j: int| 0 <= i < j < v.len() ==> (#[trigger] v[i])@ != (#[trigger] v[j])@
}

proof fn lemma_key_in_push(v: Seq<String>, x: String, k: Seq<char>)
    ensures
        key_in(v.push(x), k) <==> (key_in(v, k) || x@ == k),
{
    if key_in(v.push(x), k) {
        let w = choose|w: int| 0 <= w < v.push(x).len() && (#[trigger] v.push(x)[w])@ == k;
        if w < v.len() {
            assert((v[w])@ == k);
        } else {
            assert(v.push(x)[w] == x);
        }
    }
    if key_in(v, k) {
        let w = choose|w: int| 0 <= w < v.len() && (#[trigger] v[w])@ == k;
        assert((v.push(x)[w])@ == k);
    }
    if x@ == k {
        assert((v.push(x)[v.len() as int])@ == k);
    }
}

proof fn lemma_key_in_take_succ(v: Seq<String>, i: int, k: Seq<char>)
    requires
        0 <= i < v.len(),
    ensures
        key_in(v.take(i + 1), k) <==> (key_in(v.take(i), k) || (v[i])@ == k),
{
    assert(v.take(i + 1) =~= v.take(i).push(v[i]));
    lemma_key_in_push(v.take(i), v[i], k);
}

/// The model of the object store: the keys it currently holds.
#[derive(Debug)]
pub struct StoreModel {
    pub objects: Vec<String>,
}

impl StoreModel {
    /// An empty store.
    pub fn new() -> (r: StoreModel)
        ensures
            r.objects@.len() == 0,
            store_wf(r.objects@),
            store_keys(r.objects@) =~= Set::<Seq<char>>::empty(),
    {
        let r = StoreModel { objects: Vec::new() };
        proof {
            assert forall|k: Seq<char>| !store_keys(r.objects@).contains(k) by {
                if key_in(r.objects@, k) {
                    let w = choose|w: int|
                        0 <= w < r.objects@.len() && (#[trigger] r.objects@[w])@ == k;
                }
            }
        }
        r
    }

    /// Whether the store holds the key.
    pub fn contains_key(&self, key: &str) -> (r: bool)
        ensures
            r == store_keys(self.objects@).contains(key@),
    {
        let mut i: usize = 0;
        while i < self.objects.len()
            invariant
                i <= self.objects@.len(),
                forall|j: int| 0 <= j < i ==> (#[trigger] self.objects@[j])@ != key@,
            decreases self.objects@.len() - i,
        {
            if str_eq(self.objects[i].as_str(), key) {
                proof {
                    assert((self.objects@[i as int])@ == key@);
                    assert(key_in(self.objects@, key@));
                }
                return true;
            }
            i = i + 1;
        }
        proof {
            if key_in(self.objects@, key@) {
                let w = choose|w: int|
                    0 <= w < self.objects@.len() && (#[trigger] self.objects@[w])@ == key@;
                assert((self.objects@[w])@ != key@);
            }
        }
        false
    }

    /// Writes an object: afterwards the key is held; nothing else changes.
    pub fn put(&mut self, key: &str)
        requires
            store_wf(old(self).objects@),
        ensures
            store_wf(final(self).objects@),
            store_keys(final(self).objects@) == store_keys(old(self).objects@).insert(key@),
    {
        if self.contains_key(key) {
            proof {
                assert(store_keys(self.objects@) =~= store_keys(self.objects@).insert(key@));
            }
        } else {
            let ghost v0 = self.objects@;
            self.objects.push(String::from_str(key));
            proof {
                assert(forall|j: int| 0 <= j < v0.len() ==> (#[trigger] v0[j])@ != key@) by {
                    assert forall|j: int| 0 <= j < v0.len() implies (#[trigger] v0[j])@ != key@ by {
                        if (v0[j])@ == key@ {
                            assert(key_in(v0, key@));
                        }
                    }
                }
                assert(store_wf(self.objects@)) by {
                    assert forall|a: int, b: int|
                        0 <= a < b < self.objects@.len() implies (#[trigger] self.objects@[a])@ != (
                    #[trigger] self.objects@[b])@ by {
                        if b < v0.len() {
                            assert((v0[a])@ != (v0[b])@);
                        } else {
                            assert(self.objects@[b]@ == key@);
                            assert((v0[a])@ != key@);
                        }
                    }
                }
                assert(store_keys(self.objects@) =~= store_keys(v0).insert(key@)) by {
                    assert forall|k: Seq<char>|
                        store_keys(self.objects@).contains(k) == store_keys(v0).insert(
                            key@,
                        ).contains(k) by {
                        lemma_key_in_push(v0, self.objects@.last(), k);
                        assert(self.objects@ =~= v0.push(self.objects@.last()));
                    }
                }
            }
        }
    }

    /// Deletes an object: afterwards the key is not held; nothing else
    /// changes.
    pub fn delete(&mut self, key: &str)
        requires
            store_wf(old(self).objects@),
        ensures
            store_wf(final(self).objects@),
            store_keys(final(self).objects@) == store_keys(old(self).objects@).remove(key@),
    {
        let ghost v0 = self.objects@;
        let mut kept: Vec<String> = Vec::new();
        proof {
            assert(store_keys(kept@) =~= store_keys(v0.take(0)).remove(key@)) by {
                assert forall|k: Seq<char>|
                    store_keys(kept@).contains(k) == store_keys(v0.take(0)).remove(
                        key@,
                    ).contains(k) by {
                    if key_in(kept@, k) {
                        let w = choose|w: int|
                            0 <= w < kept@.len() && (#[trigger] kept@[w])@ == k;
                    }
                    if key_in(v0.take(0), k) {
                        let w = choose|w: int|
                            0 <= w < v0.take(0).len() && (#[trigger] v0.take(0)[w])@ == k;
                    }
                }
            }
        }
        let mut i: usize = 0;
        while i < self.objects.len()
            invariant
                i <= self.objects@.len(),
                self.objects@ == v0,
                store_wf(v0),
                forall|j: int|
                    0 <= j < kept@.len() ==> exists|w: int|
                        0 <= w < i && (#[trigger] kept@[j])@ == (v0[w])@,
                store_wf(kept@),
                store_keys(kept@) == store_keys(v0.take(i as int)).remove(key@),
            decreases self.objects@.len() - i,
        {
            let keep = !str_eq(self.objects[i].as_str(), key);
            proof {
                lemma_key_in_take_succ(v0, i as int, key@);
            }
            if keep {
                let ghost k0 = kept@;
                let x = self.objects[i].clone();
                proof {
                    assert(x@ == (v0[i as int])@);
                }
                kept.push(x);
                proof {
                    assert(forall|j: int|
                        0 <= j < k0.len() ==> (#[trigger] kept@[j]) == k0[j]);
                    assert((kept@[k0.len() as int])@ == (v0[i as int])@);
                    assert forall|j: int|
                        0 <= j < kept@.len() implies exists|w: int|
                            0 <= w < i + 1 && (#[trigger] kept@[j])@ == (v0[w])@ by {
                        if j < k0.len() {
                            let w = choose|w: int| 0 <= w < i && (#[trigger] k0[j])@ == (v0[w])@;
                            assert((kept@[j])@ == (v0[w])@);
                        } else {
                            assert((kept@[j])@ == (v0[i as int])@);
                        }
                    }
                    assert(store_wf(kept@)) by {
                        assert forall|a: int, b: int|
                            0 <= a < b < kept@.len() implies (#[trigger] kept@[a])@ != (
                        #[trigger] kept@[b])@ by {
                            if b == k0.len() {
                                let w = choose|w: int|
                                    0 <= w < i && (#[trigger] k0[a])@ == (v0[w])@;
                                assert((v0[w])@ != (v0[i as int])@);
                            } else {
                                assert((k0[a])@ != (k0[b])@);
                            }
                        }
                    }
                    assert(store_keys(kept@) =~= store_keys(v0.take(i as int + 1)).remove(key@))
                        by {
                        assert forall|k: Seq<char>|
                            store_keys(kept@).contains(k) == store_keys(
                                v0.take(i as int + 1),
                            ).remove(key@).contains(k) by {
                            assert(kept@ =~= k0.push(kept@.last()));
                            lemma_key_in_push(k0, kept@.last(), k);
                            lemma_key_in_take_succ(v0, i as int, k);
                            assert((kept@.last())@ == (v0[i as int])@);
                            assert((v0[i as int])@ != key@);
                            assert(store_keys(kept@).contains(k) == key_in(kept@, k));
                            assert(key_in(kept@, k) == (key_in(k0, k) || (v0[i as int])@ == k));
                            assert(store_keys(k0).contains(k) == store_keys(
                                v0.take(i as int),
                            ).remove(key@).contains(k));
                            assert(store_keys(v0.take(i as int)).remove(key@).contains(k) == (
                            key_in(v0.take(i as int), k) && k != key@));
                            assert(store_keys(v0.take(i as int + 1)).remove(key@).contains(k) == (
                            key_in(v0.take(i as int + 1), k) && k != key@));
                        }
                    }
                }
            } else {
                proof {
                    assert((v0[i as int])@ == key@);
                    assert(store_keys(kept@) =~= store_keys(v0.take(i as int + 1)).remove(key@))
                        by {
                        assert forall|k: Seq<char>|
                            store_keys(kept@).contains(k) == store_keys(
                                v0.take(i as int + 1),
                            ).remove(key@).contains(k) by {
                            lemma_key_in_take_succ(v0, i as int, k);
                            assert(store_keys(kept@).contains(k) == key_in(kept@, k));
                            assert(store_keys(kept@).contains(k) == store_keys(
                                v0.take(i as int),
                            ).remove(key@).contains(k));
                            assert(store_keys(v0.take(i as int)).remove(key@).contains(k) == (
                            key_in(v0.take(i as int), k) && k != key@));
                            assert(store_keys(v0.take(i as int + 1)).remove(key@).contains(k) == (
                            key_in(v0.take(i as int + 1), k) && k != key@));
                        }
                    }
                }
            }
            i = i + 1;
        }
        proof {
            assert(v0.take(v0.len() as int) =~= v0);
        }
        self.objects = kept;
    }
}

pub open spec fn opt_view(o: Option<&str>) -> Option<Seq<char>> {
    match o {
        Some(s) => Some(s@),
        None => None,
    }
}

/// What processing one part produced.
#[derive(Debug, Clone, PartialEq, Eq)]
pub enum PartOutcome {
    /// The part was rejected before any write.
    Skipped,
    /// The object-store put failed: nothing was written.
    PutFailed,
    /// The object was written and the insert completed, inserting a row or
    /// silently skipping a natural-key duplicate.
    Stored { inserted: bool },
    /// The object was written, the insert failed otherwise, and the
    /// compensating delete removed the object again.
    Compensated,
    /// The object was written, the insert failed, and the compensating
    /// delete failed too: the object stays behind as an orphan.
    OrphanLeft,
}

/// One upload request's shared state: the transaction's table, the object
/// store, and the count of known orphans.
#[derive(Debug)]
pub struct UploadBatch {
    pub table: MetaTable,
    pub store: StoreModel,
    pub orphans: u64,
}

/// Processes one multipart part, from screening to compensation.  The
/// environment's verdicts — whether the put succeeded, whether the insert
/// failed for a reason other than a natural-key conflict, and whether the
/// compensating delete went through — arrive as inputs; the contract pins
/// the state change for every combination.
pub fn process_part(
    b: &mut UploadBatch,
    q: &FileQuery,
    field_name: &str,
    file_name: Option<&str>,
    file_id: &str,
    owner: &str,
    size: i64,
    declared_mime: Option<&str>,
    put_ok: bool,
    db_failed: bool,
    delete_ok: bool,
) -> (r: PartOutcome)
    requires
        table_wf(recs_model(old(b).table.rows@)),
        store_wf(old(b).store.objects@),
        old(b).orphans < u64::MAX,
    ensures
        table_wf(recs_model(final(b).table.rows@)),
        store_wf(final(b).store.objects@),
        (r == PartOutcome::Skipped) == (part_title(field_name@, opt_view(file_name)) is None),
        (r == PartOutcome::PutFailed) == (part_title(field_name@, opt_view(file_name)) is Some
            && !put_ok),
        (r matches PartOutcome::Stored { .. }) == (part_title(field_name@, opt_view(file_name))
            is Some && put_ok && !db_failed),
        (r == PartOutcome::Compensated) == (part_title(field_name@, opt_view(file_name)) is Some
            && put_ok && db_failed && delete_ok),
        (r == PartOutcome::OrphanLeft) == (part_title(field_name@, opt_view(file_name)) is Some
            && put_ok && db_failed && !delete_ok),
        (r == PartOutcome::Skipped || r == PartOutcome::PutFailed) ==> final(b).table.rows@
            == old(b).table.rows@ && final(b).store.objects@ == old(b).store.objects@
            && final(b).orphans == old(b).orphans,
        r matches PartOutcome::Stored { inserted } ==> ({
            let t = part_title(field_name@, opt_view(file_name))->0;
            let key = object_key_spec(q.path@, t);
            let m = upload_rec_model(
                file_id@,
                t,
                owner@,
                size as int,
                opt_view(declared_mime),
                q.path@,
                q.is_public,
            );
            &&& store_keys(final(b).store.objects@) == store_keys(old(b).store.objects@).insert(
                key,
            )
            &&& recs_model(final(b).table.rows@) == insert_dn_model(
                recs_model(old(b).table.rows@),
                m,
            )
            &&& inserted == !has_key(recs_model(old(b).table.rows@), nat_key(m))
            &&& final(b).orphans == old(b).orphans
        }),
        (r == PartOutcome::Compensated) ==> ({
            let t = part_title(field_name@, opt_view(file_name))->0;
            let key = object_key_spec(q.path@, t);
            &&& final(b).table.rows@ == old(b).table.rows@
            &&& store_keys(final(b).store.objects@) == store_keys(old(b).store.objects@).remove(
                key,
            )
            &&& final(b).orphans == old(b).orphans
        }),
        (r == PartOutcome::OrphanLeft) ==> ({
            let t = part_title(field_name@, opt_view(file_name))->0;
            let key = object_key_spec(q.path@, t);
            &&& final(b).table.rows@ == old(b).table.rows@
            &&& store_keys(final(b).store.objects@) == store_keys(old(b).store.objects@).insert(
                key,
            )
            &&& final(b).orphans == old(b).orphans + 1
        }),
{
    let title = match screen_part(field_name, file_name) {
        Option::None => {
            return PartOutcome::Skipped;
        },
        Option::Some(t) => t,
    };
    if !put_ok {
        return PartOutcome::PutFailed;
    }
    let ghost ks0 = store_keys(b.store.objects@);
    let put = make_put_request(q, title.as_str(), declared_mime);
    b.store.put(put.key.as_str());
    if db_failed {
        if delete_ok {
            b.store.delete(put.key.as_str());
            proof {
                assert(ks0.insert(put.key@).remove(put.key@) =~= ks0.remove(put.key@));
            }
            PartOutcome::Compensated
        } else {
            b.orphans = b.orphans + 1;
            PartOutcome::OrphanLeft
        }
    } else {
        let rec = make_file_record(file_id, title.as_str(), owner, size, declared_mime, q);
        let inserted = b.table.insert_do_nothing(rec);
        PartOutcome::Stored { inserted }
    }
}

/// What an explicit delete produced.
#[derive(Debug, Clone, Copy, PartialEq, Eq, Structural)]
pub enum DeleteOutcome {
    /// No row matched the id and owner; nothing changed.
    NotFound,
    /// The row was removed and its object deleted.
    Deleted,
    /// The row was removed but the object delete failed: the object stays
    /// behind as an orphan for reconciliation.
    ObjectOrphaned,
}

/// Deletes a file scoped to its id and owner: the first matching row is
/// removed first, then the row's object; a failed object delete is not
/// retried and leaves the orphan to the reconciliation job.
pub fn delete_file(
    table: &mut MetaTable,
    store: &mut StoreModel,
    id: &str,
    owner: &str,
    delete_ok: bool,
) -> (r: DeleteOutcome)
    requires
        table_wf(recs_model(old(table).rows@)),
        store_wf(old(store).objects@),
    ensures
        table_wf(recs_model(final(table).rows@)),
        store_wf(final(store).objects@),
        r == DeleteOutcome::NotFound ==> final(table).rows@ == old(table).rows@
            && final(store).objects@ == old(store).objects@ && (forall|i: int|
            0 <= i < recs_model(old(table).rows@).len() ==> !((#[trigger] recs_model(
                old(table).rows@,
            )[i]).id == id@ && recs_model(old(table).rows@)[i].owner_id == owner@)),
        r != DeleteOutcome::NotFound ==> (exists|w: int|
            #![trigger recs_model(old(table).rows@)[w]]
            {
                let ms0 = recs_model(old(table).rows@);
                &&& 0 <= w < ms0.len()
                &&& ms0[w].id == id@
                &&& ms0[w].owner_id == owner@
                &&& (forall|j: int|
                    0 <= j < w ==> !((#[trigger] ms0[j]).id == id@ && ms0[j].owner_id == owner@))
                &&& recs_model(final(table).rows@) == ms0.remove(w)
                &&& (r == DeleteOutcome::Deleted ==> delete_ok && store_keys(
                    final(store).objects@,
                ) == store_keys(old(store).objects@).remove(
                    object_key_spec(ms0[w].path, ms0[w].title),
                ))
                &&& (r == DeleteOutcome::ObjectOrphaned ==> !delete_ok && final(store).objects@
                    == old(store).objects@)
            }),
        (r == DeleteOutcome::Deleted) ==> delete_ok,
        (r == DeleteOutcome::ObjectOrphaned) ==> !delete_ok,
{
    let ghost ms0 = recs_model(table.rows@);
    let n = table.rows.len();
    proof {
        assert(ms0.len() == n);
    }
    let mut w: usize = 0;
    let mut found = false;
    while w < n && !found
        invariant
            0 <= w <= n,
            n == table.rows@.len(),
            ms0 == recs_model(table.rows@),
            ms0.len() == n,
            !found ==> forall|j: int|
                0 <= j < w ==> !((#[trigger] ms0[j]).id == id@ && ms0[j].owner_id == owner@),
            found ==> w < n && ms0[w as int].id == id@ && ms0[w as int].owner_id == owner@ && (
            forall|j: int|
                0 <= j < w ==> !((#[trigger] ms0[j]).id == id@ && ms0[j].owner_id == owner@)),
        decreases n - w, (if found {
            0int
        } else {
            1int
        }),
    {
        proof {
            assert(ms0[w as int] == table.rows@[w as int]@);
        }
        if str_eq(table.rows[w].id.as_str(), id) && str_eq(table.rows[w].owner_id.as_str(), owner) {
            found = true;
        } else {
            w = w + 1;
        }
    }
    if !found {
        return DeleteOutcome::NotFound;
    }
    let key = crate::files::file_key(table.rows[w].path.as_str(), table.rows[w].title.as_str());
    proof {
        assert(ms0[w as int] == table.rows@[w as int]@);
        assert(key@ == object_key_spec(ms0[w as int].path, ms0[w as int].title));
    }
    let _removed = table.rows.remove(w);
    proof {
        assert(recs_model(table.rows@) =~= ms0.remove(w as int)) by {
            assert(forall|i: int|
                0 <= i < table.rows@.len() ==> #[trigger] recs_model(table.rows@)[i]
                    == table.rows@[i]@);
        }
        assert(table_wf(ms0.remove(w as int))) by {
            assert forall|a: int, b: int|
                0 <= a < b < ms0.remove(w as int).len() implies nat_key(
                #[trigger] ms0.remove(w as int)[a]) != nat_key(#[trigger] ms0.remove(w as int)[b]) by {
                let a0: int = if a < w { a } else { a + 1 };
                let b0: int = if b < w { b } else { b + 1 };
                assert(ms0.remove(w as int)[a] == ms0[a0]);
                assert(ms0.remove(w as int)[b] == ms0[b0]);
                assert(nat_key(ms0[a0]) != nat_key(ms0[b0]));
            }
        }
    }
    if delete_ok {
        store.delete(key.as_str());
        DeleteOutcome::Deleted
    } else {
        DeleteOutcome::ObjectOrphaned
    }
}

/// One placeholder group of the tag statement, and everything after it.
pub open spec fn tag_parts(i: nat, n: nat) -> Seq<char>
    decreases n - i,
{
    if i >= n {
        Seq::empty()
    } else {
        "($1, $"@ + dec_str_of((i + 2) as nat) + ")"@ + (if i + 1 < n {
            ", "@
        } else {
            " ON CONFLICT (title, owner_id) DO NOTHING;"@
        }) + tag_parts((i + 1) as nat, n)
    }
}

/// The batched tag-insert statement for `n` tags: the owner is `$1`, the
/// tags are `$2` on, and a duplicate tag is silently skipped.
pub open spec fn tag_stmt_spec(n: nat) -> Seq<char> {
    "INSERT INTO tags (owner_id, title) VALUES "@ + tag_parts(0, n)
}

pub open spec fn trimmed_views(tags: Seq<String>) -> Seq<Seq<char>> {
    tags.map_values(|t: String| trim_spec(t@))
}

/// Builds the batched tag-insert statement and its parameters: the owner
/// id first, then each tag trimmed, in order.
pub fn build_tag_insert(tags: &Vec<String>, owner_id: &str) -> (r: (String, Vec<String>))
    requires
        tags@.len() + 2 <= usize::MAX,
    ensures
        r.0@ == tag_stmt_spec(tags@.len() as nat),
        str_views(r.1@) == seq![owner_id@] + trimmed_views(tags@),
{
    let n = tags.len();
    let mut stmt = String::new();
    stmt.append("INSERT INTO tags (owner_id, title) VALUES ");
    proof {
        assert(stmt@ + tag_parts(0, n as nat) =~= tag_stmt_spec(n as nat));
    }
    let mut i: usize = 0;
    while i < n
        invariant
            i <= n,
            n == tags@.len(),
            n + 2 <= usize::MAX,
            stmt@ + tag_parts(i as nat, n as nat) == tag_stmt_spec(n as nat),
        decreases n - i,
    {
        let num = usize_to_dec(i + 2);
        stmt.append("($1, $");
        stmt.append(num.as_str());
        stmt.append(")");
        if i + 1 < n {
            stmt.append(", ");
        } else {
            stmt.append(" ON CONFLICT (title, owner_id) DO NOTHING;");
        }
        proof {
            assert(stmt@ + tag_parts((i + 1) as nat, n as nat) =~= tag_stmt_spec(n as nat));
        }
        i = i + 1;
    }
    proof {
        assert(tag_parts(n as nat, n as nat) == Seq::<char>::empty());
        assert(stmt@ =~= tag_stmt_spec(n as nat));
    }
    let ghost w = seq![owner_id@] + trimmed_views(tags@);
    let mut params: Vec<String> = Vec::new();
    params.push(String::from_str(owner_id));
    proof {
        assert(w.len() == 1 + tags@.len());
        assert(str_views(params@) =~= w.take(1));
    }
    let mut j: usize = 0;
    while j < n
        invariant
            j <= n,
            n == tags@.len(),
            w == seq![owner_id@] + trimmed_views(tags@),
            w.len() == 1 + n,
            str_views(params@) == w.take(1 + j as int),
            params@.len() == 1 + j,
        decreases n - j,
    {
        let x = trim_ascii(tags[j].as_str());
        proof {
            assert(trimmed_views(tags@)[j as int] == trim_spec(tags@[j as int]@));
            assert(w[1 + j as int] == trim_spec(tags@[j as int]@));
            lemma_str_views_push(params@, x, w, 1 + j as int);
        }
        params.push(x);
        j = j + 1;
    }
    proof {
        assert(w.take(w.len() as int) =~= w);
    }
    (stmt, params)
}


} // verus!
