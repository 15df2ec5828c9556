//! The metadata table model and the Reconciliation Job.
//!
//! The table holds file records under the natural key (owner, path, title);
//! inserting an existing key is a silent no-op, never an error.  The import
//! walks an object-store listing, derives a record per real object, and
//! counts only the rows actually inserted, which makes a re-run against an
//! unchanged listing insert nothing (see `lemma_import_idempotent`).
//! Folder synthesis walks every distinct non-empty path left to right and
//! inserts a folder row per prefix.

use vstd::prelude::*;

use crate::files::{infer_type_spec, rsplit_once, rsplit_spec, FileTypeModel, FileTypes};
use crate::text::{lemma_str_views_push, str_eq, str_views};

verus! {

/// A metadata row.
#[derive(Debug, Clone, PartialEq, Eq)]
pub struct FileRecord {
    pub id: String,
    pub title: String,
    pub owner_id: String,
    pub size: i64,
    pub ftype: FileTypes,
    pub path: String,
    pub is_public: bool,
}

/// The mathematical shape of a metadata row.
pub struct RecordModel {
    pub id: Seq<char>,
    pub title: Seq<char>,
    pub owner_id: Seq<char>,
    pub size: int,
    pub ftype: FileTypeModel,
    pub path: Seq<char>,
    pub is_public: bool,
}

impl View for FileRecord {
    type V = RecordModel;

    open spec fn view(&self) -> RecordModel {
        RecordModel {
            id: self.id@,
            title: self.title@,
            owner_id: self.owner_id@,
            size: self.size as int,
            ftype: self.ftype@,
            path: self.path@,
            is_public: self.is_public,
        }
    }
}

/// The natural key of a row: owner, path, title.
pub open spec fn nat_key(m: RecordModel) -> (Seq<char>, Seq<char>, Seq<char>) {
    (m.owner_id, m.path, m.title)
}

pub open spec fn recs_model(rows: Seq<FileRecord>) -> Seq<RecordModel> {
    rows.map_values(|r: FileRecord| r@)
}

/// No two rows share a natural key.
pub open spec fn table_wf(ms: Seq<RecordModel>) -> bool {
    forall|i: int, j: int|
        0 <= i < j < ms.len() ==> nat_key(#[trigger] ms[i]) != nat_key(#[trigger] ms[j])
}

/// Whether some row carries the key.
pub open spec fn has_key(ms: Seq<RecordModel>, k: (Seq<char>, Seq<char>, Seq<char>)) -> bool {
    exists|i: int| 0 <= i < ms.len() && nat_key(#[trigger] ms[i]) == k
}

/// Insert-or-skip on the natural key: the model of `ON CONFLICT DO
/// NOTHING`.
pub open spec fn insert_dn_model(ms: Seq<RecordModel>, m: RecordModel) -> Seq<RecordModel> {
    if has_key(ms, nat_key(m)) {
        ms
    } else {
        ms.push(m)
    }
}

/// The metadata table: rows with pairwise-distinct natural keys.
#[derive(Debug)]
pub struct MetaTable {
    pub rows: Vec<FileRecord>,
}

impl MetaTable {
    /// An empty table.
    pub fn new() -> (r: MetaTable)
        ensures
            r.rows@.len() == 0,
            table_wf(recs_model(r.rows@)),
    {
        let r = MetaTable { rows: Vec::new() };
        proof {
            assert(recs_model(r.rows@).len() == 0);
        }
        r
    }

    /// Inserts the row unless its natural key is already present; reports
    /// whether a row was actually inserted.
    pub fn insert_do_nothing(&mut self, r: FileRecord) -> (inserted: bool)
        requires
            table_wf(recs_model(old(self).rows@)),
        ensures
            table_wf(recs_model(final(self).rows@)),
            inserted == !has_key(recs_model(old(self).rows@), nat_key(r@)),
            recs_model(final(self).rows@) == insert_dn_model(recs_model(old(self).rows@), r@),
            final(self).rows@.len() == old(self).rows@.len() + (if inserted {
                1int
            } else {
                0int
            }),
    {
        let ghost ms = recs_model(self.rows@);
        let n = self.rows.len();
        proof {
            assert(ms.len() == n);
        }
        let mut i: usize = 0;
        while i < n
            invariant
                i <= n,
                n == self.rows@.len(),
                ms == recs_model(self.rows@),
                ms.len() == n,
                table_wf(ms),
                forall|j: int| 0 <= j < i ==> nat_key(#[trigger] ms[j]) != nat_key(r@),
            decreases n - i,
        {
            let same = str_eq(self.rows[i].owner_id.as_str(), r.owner_id.as_str()) && str_eq(
                self.rows[i].path.as_str(),
                r.path.as_str(),
            ) && str_eq(self.rows[i].title.as_str(), r.title.as_str());
            proof {
                assert(ms[i as int] == self.rows@[i as int]@);
            }
            if same {
                proof {
                    assert(nat_key(ms[i as int]) == nat_key(r@));
                    assert(has_key(ms, nat_key(r@)));
                }
                return false;
            }
            i = i + 1;
        }
        proof {
            assert(!has_key(ms, nat_key(r@)));
        }
        let ghost rv = r@;
        self.rows.push(r);
        proof {
            assert(recs_model(self.rows@) =~= ms.push(rv));
            assert(table_wf(ms.push(rv))) by {
                assert(forall|j: int| 0 <= j < ms.len() ==> nat_key(#[trigger] ms.push(rv)[j]) != nat_key(
                    rv,
                ));
            }
        }
        true
    }
}

/// One object of a store listing: its key, its stored content type if any,
/// and its byte length.
#[derive(Debug, Clone, PartialEq, Eq)]
pub struct ListedObject {
    pub key: String,
    pub content_type: Option<String>,
    pub size: i64,
}

/// The mathematical shape of a listed object.
pub struct ObjModel {
    pub key: Seq<char>,
    pub content_type: Option<Seq<char>>,
    pub size: int,
}

impl View for ListedObject {
    type V = ObjModel;

    open spec fn view(&self) -> ObjModel {
        ObjModel {
            key: self.key@,
            content_type: match self.content_type {
                Some(c) => Some(c@),
                None => None,
            },
            size: self.size as int,
        }
    }
}

pub open spec fn objs_model(objs: Seq<ListedObject>) -> Seq<ObjModel> {
    objs.map_values(|o: ListedObject| o@)
}

/// The key with the listing prefix removed, where it applies.
pub open spec fn strip_prefix_spec(key: Seq<char>, prefix: Seq<char>) -> Seq<char> {
    if prefix.len() <= key.len() && key.take(prefix.len() as int) == prefix {
        key.skip(prefix.len() as int)
    } else {
        key
    }
}

/// What the import derives from one listed key: nothing for directory
/// markers and empty titles, else the record's path and title, split at the
/// last separator.
pub open spec fn import_action(key: Seq<char>, prefix: Seq<char>) -> Option<(Seq<char>, Seq<char>)> {
    if key.len() == 0 || key.last() == '/' {
        None
    } else {
        let rel = strip_prefix_spec(key, prefix);
        if rel.len() == 0 {
            None
        } else {
            match rsplit_spec(rel, '/') {
                Some(pair) => if pair.1.len() == 0 {
                    None
                } else {
                    Some(pair)
                },
                None => Some((Seq::empty(), rel)),
            }
        }
    }
}

/// The row the import inserts for one object, if any.  The identifier
/// column is assigned at the database boundary; the model records it empty.
pub open spec fn import_rec_model(o: ObjModel, owner: Seq<char>, prefix: Seq<char>) -> Option<
    RecordModel,
> {
    match import_action(o.key, prefix) {
        None => None,
        Some(pair) => Some(
            RecordModel {
                id: Seq::empty(),
                title: pair.1,
                owner_id: owner,
                size: o.size,
                ftype: infer_type_spec(o.content_type, pair.1),
                path: pair.0,
                is_public: false,
            },
        ),
    }
}

/// The table after importing a whole listing, object by object.
pub open spec fn import_fold(
    ms: Seq<RecordModel>,
    objs: Seq<ObjModel>,
    owner: Seq<char>,
    prefix: Seq<char>,
) -> Seq<RecordModel>
    decreases objs.len(),
{
    if objs.len() == 0 {
        ms
    } else {
        let next = match import_rec_model(objs[0], owner, prefix) {
            None => ms,
            Some(m) => insert_dn_model(ms, m),
        };
        import_fold(next, objs.drop_first(), owner, prefix)
    }
}

/// One import step: derive a record from the object and insert-or-skip.
pub open spec fn import_step(
    ms: Seq<RecordModel>,
    o: ObjModel,
    owner: Seq<char>,
    prefix: Seq<char>,
) -> Seq<RecordModel> {
    match import_rec_model(o, owner, prefix) {
        None => ms,
        Some(m) => insert_dn_model(ms, m),
    }
}

/// The natural key the import would give an object's row, if any.
pub open spec fn derived_key(o: ObjModel, owner: Seq<char>, prefix: Seq<char>) -> Option<
    (Seq<char>, Seq<char>, Seq<char>),
> {
    match import_action(o.key, prefix) {
        None => None,
        Some(pair) => Some((owner, pair.0, pair.1)),
    }
}

proof fn lemma_import_fold_snoc(
    ms: Seq<RecordModel>,
    objs: Seq<ObjModel>,
    i: int,
    owner: Seq<char>,
    prefix: Seq<char>,
)
    requires
        0 <= i < objs.len(),
    ensures
        import_fold(ms, objs.take(i + 1), owner, prefix) == import_step(
            import_fold(ms, objs.take(i), owner, prefix),
            objs[i],
            owner,
            prefix,
        ),
    decreases i,
{
    let ms1 = import_step(ms, objs[0], owner, prefix);
    if i == 0 {
        let s1 = objs.take(1);
        assert(s1[0] == objs[0]);
        assert(s1.drop_first() =~= Seq::<ObjModel>::empty());
        assert(objs.take(0) =~= Seq::<ObjModel>::empty());
        assert(import_fold(ms, s1, owner, prefix) == import_fold(
            ms1,
            s1.drop_first(),
            owner,
            prefix,
        ));
        assert(import_fold(ms1, s1.drop_first(), owner, prefix) == ms1);
        assert(import_fold(ms, objs.take(0), owner, prefix) == ms);
    } else {
        let rest = objs.drop_first();
        lemma_import_fold_snoc(ms1, rest, i - 1, owner, prefix);
        let s_a = objs.take(i + 1);
        let s_b = objs.take(i);
        assert(s_a[0] == objs[0]);
        assert(s_b[0] == objs[0]);
        assert(s_a.drop_first() =~= rest.take(i));
        assert(s_b.drop_first() =~= rest.take(i - 1));
        assert(import_fold(ms, s_a, owner, prefix) == import_fold(ms1, rest.take(i), owner, prefix));
        assert(import_fold(ms, s_b, owner, prefix) == import_fold(
            ms1,
            rest.take(i - 1),
            owner,
            prefix,
        ));
        assert(rest[i - 1] == objs[i]);
    }
}

/// A key present before an import is still present after it.
proof fn lemma_has_key_mono(
    ms: Seq<RecordModel>,
    objs: Seq<ObjModel>,
    owner: Seq<char>,
    prefix: Seq<char>,
    k: (Seq<char>, Seq<char>, Seq<char>),
)
    requires
        has_key(ms, k),
    ensures
        has_key(import_fold(ms, objs, owner, prefix), k),
    decreases objs.len(),
{
    if objs.len() > 0 {
        let ms1 = import_step(ms, objs[0], owner, prefix);
        assert(has_key(ms1, k)) by {
            let w = choose|i: int| 0 <= i < ms.len() && nat_key(ms[i]) == k;
            match import_rec_model(objs[0], owner, prefix) {
                Some(m) => {
                    if !has_key(ms, nat_key(m)) {
                        assert(nat_key(ms.push(m)[w]) == k);
                    }
                },
                None => {},
            }
        }
        lemma_has_key_mono(ms1, objs.drop_first(), owner, prefix, k);
    }
}

/// After an import, the key each object derives is present.
proof fn lemma_derived_present(
    ms: Seq<RecordModel>,
    objs: Seq<ObjModel>,
    owner: Seq<char>,
    prefix: Seq<char>,
    i: int,
)
    requires
        0 <= i < objs.len(),
        derived_key(objs[i], owner, prefix) is Some,
    ensures
        has_key(import_fold(ms, objs, owner, prefix), derived_key(objs[i], owner, prefix)->0),
    decreases objs.len(),
{
    let k = derived_key(objs[i], owner, prefix)->0;
    let ms1 = import_step(ms, objs[0], owner, prefix);
    if i == 0 {
        let m = import_rec_model(objs[0], owner, prefix)->0;
        assert(nat_key(m) == k);
        assert(has_key(ms1, k)) by {
            if has_key(ms, nat_key(m)) {
                let w = choose|j: int| 0 <= j < ms.len() && nat_key(ms[j]) == nat_key(m);
                assert(nat_key(ms1[w]) == k);
            } else {
                assert(nat_key(ms.push(m)[ms.len() as int]) == k);
            }
        }
        lemma_has_key_mono(ms1, objs.drop_first(), owner, prefix, k);
    } else {
        lemma_derived_present(ms1, objs.drop_first(), owner, prefix, i - 1);
        assert(objs.drop_first()[i - 1] == objs[i]);
    }
}

/// An import whose every derived key is already present changes nothing.
proof fn lemma_fold_noop(
    ms: Seq<RecordModel>,
    objs: Seq<ObjModel>,
    owner: Seq<char>,
    prefix: Seq<char>,
)
    requires
        forall|i: int|
            0 <= i < objs.len() ==> (match derived_key(#[trigger] objs[i], owner, prefix) {
                Some(k) => has_key(ms, k),
                None => true,
            }),
    ensures
        import_fold(ms, objs, owner, prefix) == ms,
    decreases objs.len(),
{
    if objs.len() > 0 {
        assert(import_step(ms, objs[0], owner, prefix) == ms) by {
            match import_rec_model(objs[0], owner, prefix) {
                Some(m) => {
                    assert(derived_key(objs[0], owner, prefix) == Some(nat_key(m)));
                    assert(has_key(ms, nat_key(m)));
                },
                None => {},
            }
        }
        assert(forall|i: int|
            0 <= i < objs.drop_first().len() ==> (match derived_key(
                #[trigger] objs.drop_first()[i],
                owner,
                prefix,
            ) {
                Some(k) => has_key(ms, k),
                None => true,
            })) by {
            assert(forall|i: int|
                0 <= i < objs.drop_first().len() ==> #[trigger] objs.drop_first()[i] == objs[
                    i + 1
                ]);
        }
        lemma_fold_noop(ms, objs.drop_first(), owner, prefix);
    }
}

/// Importing the same listing twice is the same as importing it once: the
/// second run inserts nothing and leaves the table unchanged.
pub proof fn lemma_import_idempotent(
    ms: Seq<RecordModel>,
    objs: Seq<ObjModel>,
    owner: Seq<char>,
    prefix: Seq<char>,
)
    ensures
        import_fold(import_fold(ms, objs, owner, prefix), objs, owner, prefix) == import_fold(
            ms,
            objs,
            owner,
            prefix,
        ),
{
    let r = import_fold(ms, objs, owner, prefix);
    assert(forall|i: int|
        0 <= i < objs.len() ==> (match derived_key(#[trigger] objs[i], owner, prefix) {
            Some(k) => has_key(r, k),
            None => true,
        })) by {
        assert forall|i: int|
            0 <= i < objs.len() && derived_key(#[trigger] objs[i], owner, prefix) is Some implies has_key(
            r,
            derived_key(objs[i], owner, prefix)->0,
        ) by {
            lemma_derived_present(ms, objs, owner, prefix, i);
        }
    }
    lemma_fold_noop(r, objs, owner, prefix);
}

/// Derives the record the import would insert for one listed object.
fn derive_record(o: &ListedObject, owner: &str, prefix: &str) -> (r: Option<FileRecord>)
    ensures
        match r {
            Some(rec) => import_rec_model(o@, owner@, prefix@) == Some(rec@),
            None => import_rec_model(o@, owner@, prefix@) is None,
        },
{
    let n = o.key.as_str().unicode_len();
    if n == 0 {
        return None;
    }
    let last = o.key.as_str().get_char(n - 1);
    if last == '/' {
        return None;
    }
    let plen = prefix.unicode_len();
    let rel: String = if plen <= n {
        let head = o.key.as_str().substring_char(0, plen);
        if str_eq(head, prefix) {
            let tail = o.key.as_str().substring_char(plen, n);
            proof {
                assert(o.key@.subrange(0, plen as int) =~= o.key@.take(plen as int));
                assert(o.key@.subrange(plen as int, n as int) =~= o.key@.skip(plen as int));
            }
            String::from_str(tail)
        } else {
            proof {
                assert(o.key@.subrange(0, plen as int) =~= o.key@.take(plen as int));
            }
            o.key.clone()
        }
    } else {
        o.key.clone()
    };
    proof {
        assert(rel@ == strip_prefix_spec(o.key@, prefix@));
    }
    if rel.as_str().unicode_len() == 0 {
        return None;
    }
    let (path, title): (String, String) = match rsplit_once(rel.as_str(), '/') {
        Some(pair) => pair,
        None => (String::new(), rel),
    };
    if title.as_str().unicode_len() == 0 {
        return None;
    }
    let mime: Option<&str> = match &o.content_type {
        Some(c) => Some(c.as_str()),
        None => None,
    };
    let ftype = crate::files::infer_file_type(mime, title.as_str());
    Some(
        FileRecord {
            id: String::new(),
            title,
            owner_id: String::from_str(owner),
            size: o.size,
            ftype,
            path,
            is_public: false,
        },
    )
}

/// Imports a whole listing: one insert-or-skip per real object, counting
/// only the rows actually inserted.
pub fn import_from_store(
    table: &mut MetaTable,
    owner: &str,
    prefix: &str,
    objects: &Vec<ListedObject>,
) -> (count: usize)
    requires
        table_wf(recs_model(old(table).rows@)),
    ensures
        table_wf(recs_model(final(table).rows@)),
        recs_model(final(table).rows@) == import_fold(
            recs_model(old(table).rows@),
            objs_model(objects@),
            owner@,
            prefix@,
        ),
        old(table).rows@.len() + count == final(table).rows@.len(),
{
    let ghost ms0 = recs_model(old(table).rows@);
    let ghost ov = objs_model(objects@);
    let mut count: usize = 0;
    proof {
        assert(ov.take(0) =~= Seq::<ObjModel>::empty());
        assert(ov.len() == objects@.len());
    }
    let mut i: usize = 0;
    while i < objects.len()
        invariant
            i <= objects@.len(),
            ov == objs_model(objects@),
            ov.len() == objects@.len(),
            table_wf(recs_model(table.rows@)),
            recs_model(table.rows@) == import_fold(ms0, ov.take(i as int), owner@, prefix@),
            count <= table.rows@.len(),
            recs_model(table.rows@).len() == table.rows@.len(),
            ms0.len() + count == table.rows@.len(),
        decreases objects@.len() - i,
    {
        proof {
            lemma_import_fold_snoc(ms0, ov, i as int, owner@, prefix@);
            assert(ov[i as int] == objects@[i as int]@);
        }
        match derive_record(&objects[i], owner, prefix) {
            Some(rec) => {
                let inserted = table.insert_do_nothing(rec);
                if inserted {
                    let total = table.rows.len();
                    proof {
                        assert(count < total);
                    }
                    count = count + 1;
                }
            },
            None => {},
        }
        i = i + 1;
    }
    proof {
        assert(ov.take(ov.len() as int) =~= ov);
    }
    count
}


/// `k` is the first position of `c` in `s`.
pub open spec fn first_pos_of(s: Seq<char>, c: char, k: int) -> bool {
    0 <= k < s.len() && s[k] == c && (forall|j: int| 0 <= j < k ==> s[j] != c)
}

pub proof fn lemma_first_pos_unique(s: Seq<char>, c: char, k1: int, k2: int)
    requires
        first_pos_of(s, c, k1),
        first_pos_of(s, c, k2),
    ensures
        k1 == k2,
{
    if k1 < k2 {
        assert(s[k1] == c);
    } else if k2 < k1 {
        assert(s[k2] == c);
    }
}

/// The slash-separated segments of a path, in order; empty segments are
/// kept as the storage layer would see them.
pub open spec fn segments_of(p: Seq<char>) -> Seq<Seq<char>>
    decreases p.len(),
{
    if exists|k: int| first_pos_of(p, '/', k) {
        let k = choose|k: int| first_pos_of(p, '/', k);
        seq![p.take(k)] + segments_of(p.skip(k + 1))
    } else {
        seq![p]
    }
}

/// A child prefix: the parent prefix and the next segment.
pub open spec fn join_pref(pref: Seq<char>, seg: Seq<char>) -> Seq<char> {
    if pref.len() == 0 {
        seg
    } else {
        pref + "/"@ + seg
    }
}

/// The folder row for one path prefix: its parent as the path, the segment
/// as the title, folder-typed and empty.
pub open spec fn folder_rec_model(
    owner: Seq<char>,
    path: Seq<char>,
    title: Seq<char>,
    is_public: bool,
) -> RecordModel {
    RecordModel {
        id: Seq::empty(),
        title,
        owner_id: owner,
        size: 0,
        ftype: FileTypeModel::Other("folder"@),
        path,
        is_public,
    }
}

/// Walking one path's segments left to right, inserting a folder row per
/// prefix.
pub open spec fn folder_walk(
    ms: Seq<RecordModel>,
    segs: Seq<Seq<char>>,
    pref: Seq<char>,
    owner: Seq<char>,
    is_public: bool,
) -> Seq<RecordModel>
    decreases segs.len(),
{
    if segs.len() == 0 {
        ms
    } else {
        folder_walk(
            insert_dn_model(ms, folder_rec_model(owner, pref, segs[0], is_public)),
            segs.drop_first(),
            join_pref(pref, segs[0]),
            owner,
            is_public,
        )
    }
}

/// The prefix after walking the given segments.
pub open spec fn pref_after(pref: Seq<char>, segs: Seq<Seq<char>>) -> Seq<char>
    decreases segs.len(),
{
    if segs.len() == 0 {
        pref
    } else {
        pref_after(join_pref(pref, segs[0]), segs.drop_first())
    }
}

/// The distinct non-empty paths of the owner's rows, in first-occurrence
/// order.
pub open spec fn dpaths(ms: Seq<RecordModel>, owner: Seq<char>) -> Seq<Seq<char>>
    decreases ms.len(),
{
    if ms.len() == 0 {
        Seq::empty()
    } else {
        let rest = dpaths(ms.drop_last(), owner);
        let m = ms.last();
        if m.owner_id == owner && m.path.len() > 0 && !rest.contains(m.path) {
            rest.push(m.path)
        } else {
            rest
        }
    }
}

/// The table after synthesizing folders for every path, in order.
pub open spec fn synth_fold(
    ms: Seq<RecordModel>,
    paths: Seq<Seq<char>>,
    owner: Seq<char>,
    is_public: bool,
) -> Seq<RecordModel>
    decreases paths.len(),
{
    if paths.len() == 0 {
        ms
    } else {
        synth_fold(
            folder_walk(ms, segments_of(paths[0]), Seq::empty(), owner, is_public),
            paths.drop_first(),
            owner,
            is_public,
        )
    }
}

proof fn lemma_folder_walk_snoc(
    ms: Seq<RecordModel>,
    segs: Seq<Seq<char>>,
    j: int,
    pref: Seq<char>,
    owner: Seq<char>,
    is_public: bool,
)
    requires
        0 <= j < segs.len(),
    ensures
        folder_walk(ms, segs.take(j + 1), pref, owner, is_public) == insert_dn_model(
            folder_walk(ms, segs.take(j), pref, owner, is_public),
            folder_rec_model(owner, pref_after(pref, segs.take(j)), segs[j], is_public),
        ),
        pref_after(pref, segs.take(j + 1)) == join_pref(pref_after(pref, segs.take(j)), segs[j]),
    decreases j,
{
    let ms1 = insert_dn_model(ms, folder_rec_model(owner, pref, segs[0], is_public));
    let pref1 = join_pref(pref, segs[0]);
    if j == 0 {
        let s1 = segs.take(1);
        assert(s1[0] == segs[0]);
        assert(s1.drop_first() =~= Seq::<Seq<char>>::empty());
        assert(segs.take(0) =~= Seq::<Seq<char>>::empty());
        assert(folder_walk(ms, s1, pref, owner, is_public) == folder_walk(
            ms1,
            s1.drop_first(),
            pref1,
            owner,
            is_public,
        ));
        assert(folder_walk(ms1, s1.drop_first(), pref1, owner, is_public) == ms1);
        assert(folder_walk(ms, segs.take(0), pref, owner, is_public) == ms);
        assert(pref_after(pref, segs.take(0)) == pref);
        assert(pref_after(pref, s1) == pref_after(pref1, s1.drop_first()));
        assert(pref_after(pref1, s1.drop_first()) == pref1);
    } else {
        let rest = segs.drop_first();
        lemma_folder_walk_snoc(ms1, rest, j - 1, pref1, owner, is_public);
        let s_a = segs.take(j + 1);
        let s_b = segs.take(j);
        assert(s_a[0] == segs[0]);
        assert(s_b[0] == segs[0]);
        assert(s_a.drop_first() =~= rest.take(j));
        assert(s_b.drop_first() =~= rest.take(j - 1));
        assert(folder_walk(ms, s_a, pref, owner, is_public) == folder_walk(
            ms1,
            rest.take(j),
            pref1,
            owner,
            is_public,
        ));
        assert(folder_walk(ms, s_b, pref, owner, is_public) == folder_walk(
            ms1,
            rest.take(j - 1),
            pref1,
            owner,
            is_public,
        ));
        assert(pref_after(pref, s_a) == pref_after(pref1, rest.take(j)));
        assert(pref_after(pref, s_b) == pref_after(pref1, rest.take(j - 1)));
        assert(rest[j - 1] == segs[j]);
    }
}

proof fn lemma_synth_fold_snoc(
    ms: Seq<RecordModel>,
    paths: Seq<Seq<char>>,
    i: int,
    owner: Seq<char>,
    is_public: bool,
)
    requires
        0 <= i < paths.len(),
    ensures
        synth_fold(ms, paths.take(i + 1), owner, is_public) == folder_walk(
            synth_fold(ms, paths.take(i), owner, is_public),
            segments_of(paths[i]),
            Seq::empty(),
            owner,
            is_public,
        ),
    decreases i,
{
    let ms1 = folder_walk(ms, segments_of(paths[0]), Seq::empty(), owner, is_public);
    if i == 0 {
        let s1 = paths.take(1);
        assert(s1[0] == paths[0]);
        assert(s1.drop_first() =~= Seq::<Seq<char>>::empty());
        assert(paths.take(0) =~= Seq::<Seq<char>>::empty());
        assert(synth_fold(ms, s1, owner, is_public) == synth_fold(
            ms1,
            s1.drop_first(),
            owner,
            is_public,
        ));
        assert(synth_fold(ms1, s1.drop_first(), owner, is_public) == ms1);
        assert(synth_fold(ms, paths.take(0), owner, is_public) == ms);
    } else {
        let rest = paths.drop_first();
        lemma_synth_fold_snoc(ms1, rest, i - 1, owner, is_public);
        let s_a = paths.take(i + 1);
        let s_b = paths.take(i);
        assert(s_a[0] == paths[0]);
        assert(s_b[0] == paths[0]);
        assert(s_a.drop_first() =~= rest.take(i));
        assert(s_b.drop_first() =~= rest.take(i - 1));
        assert(synth_fold(ms, s_a, owner, is_public) == synth_fold(
            ms1,
            rest.take(i),
            owner,
            is_public,
        ));
        assert(synth_fold(ms, s_b, owner, is_public) == synth_fold(
            ms1,
            rest.take(i - 1),
            owner,
            is_public,
        ));
        assert(rest[i - 1] == paths[i]);
    }
}

/// A key present before a folder walk is still present after it.
proof fn lemma_walk_key_mono(
    ms: Seq<RecordModel>,
    segs: Seq<Seq<char>>,
    pref: Seq<char>,
    owner: Seq<char>,
    is_public: bool,
    k: (Seq<char>, Seq<char>, Seq<char>),
)
    requires
        has_key(ms, k),
    ensures
        has_key(folder_walk(ms, segs, pref, owner, is_public), k),
    decreases segs.len(),
{
    if segs.len() > 0 {
        let m = folder_rec_model(owner, pref, segs[0], is_public);
        let ms1 = insert_dn_model(ms, m);
        assert(has_key(ms1, k)) by {
            let w = choose|i: int| 0 <= i < ms.len() && nat_key(ms[i]) == k;
            if !has_key(ms, nat_key(m)) {
                assert(nat_key(ms.push(m)[w]) == k);
            }
        }
        lemma_walk_key_mono(ms1, segs.drop_first(), join_pref(pref, segs[0]), owner, is_public, k);
    }
}

/// A key present before folder synthesis is still present after it.
proof fn lemma_synth_key_mono(
    ms: Seq<RecordModel>,
    paths: Seq<Seq<char>>,
    owner: Seq<char>,
    is_public: bool,
    k: (Seq<char>, Seq<char>, Seq<char>),
)
    requires
        has_key(ms, k),
    ensures
        has_key(synth_fold(ms, paths, owner, is_public), k),
    decreases paths.len(),
{
    if paths.len() > 0 {
        let ms1 = folder_walk(ms, segments_of(paths[0]), Seq::empty(), owner, is_public);
        lemma_walk_key_mono(ms, segments_of(paths[0]), Seq::empty(), owner, is_public, k);
        lemma_synth_key_mono(ms1, paths.drop_first(), owner, is_public, k);
    }
}

/// After a walk, the folder key of every prefix of the walked segments is
/// present.
proof fn lemma_walk_creates(
    ms: Seq<RecordModel>,
    segs: Seq<Seq<char>>,
    pref: Seq<char>,
    owner: Seq<char>,
    is_public: bool,
    j: int,
)
    requires
        0 <= j < segs.len(),
    ensures
        has_key(
            folder_walk(ms, segs, pref, owner, is_public),
            (owner, pref_after(pref, segs.take(j)), segs[j]),
        ),
    decreases segs.len(),
{
    let m = folder_rec_model(owner, pref, segs[0], is_public);
    let ms1 = insert_dn_model(ms, m);
    let pref1 = join_pref(pref, segs[0]);
    if j == 0 {
        assert(segs.take(0) =~= Seq::<Seq<char>>::empty());
        assert(pref_after(pref, segs.take(0)) == pref);
        assert(has_key(ms1, (owner, pref, segs[0]))) by {
            if has_key(ms, nat_key(m)) {
                let w = choose|i: int| 0 <= i < ms.len() && nat_key(ms[i]) == nat_key(m);
                assert(nat_key(ms1[w]) == nat_key(m));
            } else {
                assert(nat_key(ms.push(m)[ms.len() as int]) == nat_key(m));
            }
        }
        lemma_walk_key_mono(ms1, segs.drop_first(), pref1, owner, is_public, (owner, pref, segs[0]));
    } else {
        let rest = segs.drop_first();
        lemma_walk_creates(ms1, rest, pref1, owner, is_public, j - 1);
        assert(rest[j - 1] == segs[j]);
        assert(segs.take(j)[0] == segs[0]);
        assert(segs.take(j).drop_first() =~= rest.take(j - 1));
        assert(pref_after(pref, segs.take(j)) == pref_after(pref1, rest.take(j - 1)));
    }
}

/// Folder synthesis guarantees every ancestor: after it runs, each distinct
/// non-empty path of the owner has a folder row for every prefix of its
/// segments — the row whose path is the parent prefix and whose title is
/// the segment.
pub proof fn lemma_folders_complete(
    ms: Seq<RecordModel>,
    paths: Seq<Seq<char>>,
    owner: Seq<char>,
    is_public: bool,
    i: int,
    j: int,
)
    requires
        0 <= i < paths.len(),
        0 <= j < segments_of(paths[i]).len(),
    ensures
        has_key(
            synth_fold(ms, paths, owner, is_public),
            (
                owner,
                pref_after(Seq::empty(), segments_of(paths[i]).take(j)),
                segments_of(paths[i])[j],
            ),
        ),
    decreases paths.len(),
{
    let ms1 = folder_walk(ms, segments_of(paths[0]), Seq::empty(), owner, is_public);
    if i == 0 {
        lemma_walk_creates(ms, segments_of(paths[0]), Seq::empty(), owner, is_public, j);
        lemma_synth_key_mono(
            ms1,
            paths.drop_first(),
            owner,
            is_public,
            (
                owner,
                pref_after(Seq::empty(), segments_of(paths[0]).take(j)),
                segments_of(paths[0])[j],
            ),
        );
    } else {
        lemma_folders_complete(ms1, paths.drop_first(), owner, is_public, i - 1, j);
        assert(paths.drop_first()[i - 1] == paths[i]);
    }
}

/// Every owner row with a non-empty path contributes that path to the
/// distinct-paths listing.
pub proof fn lemma_dpaths_complete(ms: Seq<RecordModel>, owner: Seq<char>, i: int)
    requires
        0 <= i < ms.len(),
        ms[i].owner_id == owner,
        ms[i].path.len() > 0,
    ensures
        dpaths(ms, owner).contains(ms[i].path),
    decreases ms.len(),
{
    let rest = dpaths(ms.drop_last(), owner);
    let m = ms.last();
    if i == ms.len() - 1 {
        if !(m.owner_id == owner && m.path.len() > 0 && !rest.contains(m.path)) {
            assert(rest.contains(m.path));
        } else {
            assert(rest.push(m.path)[rest.len() as int] == m.path);
        }
    } else {
        lemma_dpaths_complete(ms.drop_last(), owner, i);
        assert(ms.drop_last()[i] == ms[i]);
        if m.owner_id == owner && m.path.len() > 0 && !rest.contains(m.path) {
            let w = choose|w: int| 0 <= w < rest.len() && rest[w] == ms[i].path;
            assert(rest.push(m.path)[w] == ms[i].path);
        }
    }
}


/// Splits a path into its slash-separated segments.
pub fn split_slashes(p: &str) -> (r: Vec<String>)
    ensures
        str_views(r@) == segments_of(p@),
    decreases p@.len(),
{
    let n = p.unicode_len();
    let mut k: usize = 0;
    while k < n && p.get_char(k) != '/'
        invariant
            0 <= k <= n,
            n == p@.len(),
            forall|j: int| 0 <= j < k ==> p@[j] != '/',
        decreases n - k,
    {
        k = k + 1;
    }
    if k == n {
        proof {
            if exists|kk: int| first_pos_of(p@, '/', kk) {
                let kk = choose|kk: int| first_pos_of(p@, '/', kk);
                assert(p@[kk] == '/');
            }
        }
        let mut r: Vec<String> = Vec::new();
        r.push(String::from_str(p));
        proof {
            assert(str_views(r@) =~= segments_of(p@));
        }
        r
    } else {
        proof {
            assert(first_pos_of(p@, '/', k as int));
            let k0 = choose|kk: int| first_pos_of(p@, '/', kk);
            lemma_first_pos_unique(p@, '/', k0, k as int);
        }
        let head = p.substring_char(0, k);
        let tail = p.substring_char(k + 1, n);
        proof {
            assert(head@ =~= p@.take(k as int));
            assert(tail@ =~= p@.skip(k as int + 1));
        }
        let rest = split_slashes(tail);
        let ghost w = seq![p@.take(k as int)] + str_views(rest@);
        let mut r: Vec<String> = Vec::new();
        r.push(String::from_str(head));
        proof {
            assert(str_views(r@) =~= w.take(1));
        }
        let mut i: usize = 0;
        while i < rest.len()
            invariant
                i <= rest@.len(),
                w == seq![p@.take(k as int)] + str_views(rest@),
                w.len() == 1 + rest@.len(),
                str_views(rest@).len() == rest@.len(),
                str_views(r@) == w.take(1 + i as int),
                r@.len() == 1 + i,
            decreases rest@.len() - i,
        {
            let x = rest[i].clone();
            proof {
                assert(str_views(rest@)[i as int] == rest@[i as int]@);
                assert(w[1 + i as int] == rest@[i as int]@);
                lemma_str_views_push(r@, x, w, 1 + i as int);
            }
            r.push(x);
            i = i + 1;
        }
        proof {
            assert(w.take(w.len() as int) =~= w);
            assert(str_views(r@) =~= segments_of(p@));
        }
        r
    }
}

fn contains_str(v: &Vec<String>, s: &str) -> (r: bool)
    ensures
        r == str_views(v@).contains(s@),
{
    let mut i: usize = 0;
    while i < v.len()
        invariant
            i <= v@.len(),
            forall|j: int| 0 <= j < i ==> str_views(v@)[j] != s@,
        decreases v@.len() - i,
    {
        if str_eq(v[i].as_str(), s) {
            proof {
                assert(str_views(v@)[i as int] == s@);
                assert(str_views(v@).contains(s@));
            }
            return true;
        }
        proof {
            assert(str_views(v@)[i as int] == v@[i as int]@);
        }
        i = i + 1;
    }
    proof {
        assert(str_views(v@).len() == v@.len());
    }
    false
}

/// The owner's distinct non-empty paths, in first-occurrence order.
fn collect_paths(rows: &Vec<FileRecord>, owner: &str) -> (r: Vec<String>)
    ensures
        str_views(r@) == dpaths(recs_model(rows@), owner@),
{
    let ghost ms = recs_model(rows@);
    let mut out: Vec<String> = Vec::new();
    proof {
        assert(ms.len() == rows@.len());
        assert(ms.take(0) =~= Seq::<RecordModel>::empty());
        assert(str_views(out@) =~= dpaths(ms.take(0), owner@));
    }
    let mut i: usize = 0;
    while i < rows.len()
        invariant
            i <= rows@.len(),
            ms == recs_model(rows@),
            ms.len() == rows@.len(),
            str_views(out@) == dpaths(ms.take(i as int), owner@),
        decreases rows@.len() - i,
    {
        proof {
            assert(ms[i as int] == rows@[i as int]@);
            assert(ms.take(i as int + 1).drop_last() =~= ms.take(i as int));
            assert(ms.take(i as int + 1).last() == ms[i as int]);
        }
        let qualifies = str_eq(rows[i].owner_id.as_str(), owner) && rows[i].path.as_str().unicode_len()
            > 0 && !contains_str(&out, rows[i].path.as_str());
        if qualifies {
            let x = rows[i].path.clone();
            let ghost w = dpaths(ms.take(i as int + 1), owner@);
            proof {
                assert(w == dpaths(ms.take(i as int), owner@).push(ms[i as int].path));
                assert(w.take(w.len() - 1) =~= dpaths(ms.take(i as int), owner@));
                lemma_str_views_push(out@, x, w, w.len() - 1);
            }
            out.push(x);
        }
        i = i + 1;
    }
    proof {
        assert(ms.take(ms.len() as int) =~= ms);
    }
    out
}

/// Synthesizes a folder row for every ancestor prefix of every distinct
/// non-empty path of the owner, counting only the rows actually inserted.
pub fn synthesize_folders(table: &mut MetaTable, owner: &str, is_public: bool) -> (count: usize)
    requires
        table_wf(recs_model(old(table).rows@)),
    ensures
        table_wf(recs_model(final(table).rows@)),
        recs_model(final(table).rows@) == synth_fold(
            recs_model(old(table).rows@),
            dpaths(recs_model(old(table).rows@), owner@),
            owner@,
            is_public,
        ),
        old(table).rows@.len() + count == final(table).rows@.len(),
{
    let ghost ms0 = recs_model(old(table).rows@);
    let paths = collect_paths(&table.rows, owner);
    let ghost pv = str_views(paths@);
    let mut count: usize = 0;
    proof {
        assert(pv.take(0) =~= Seq::<Seq<char>>::empty());
        assert(pv.len() == paths@.len());
    }
    let mut i: usize = 0;
    while i < paths.len()
        invariant
            i <= paths@.len(),
            pv == str_views(paths@),
            pv == dpaths(ms0, owner@),
            pv.len() == paths@.len(),
            table_wf(recs_model(table.rows@)),
            recs_model(table.rows@) == synth_fold(ms0, pv.take(i as int), owner@, is_public),
            recs_model(table.rows@).len() == table.rows@.len(),
            ms0.len() + count == table.rows@.len(),
        decreases paths@.len() - i,
    {
        proof {
            lemma_synth_fold_snoc(ms0, pv, i as int, owner@, is_public);
            assert(pv[i as int] == paths@[i as int]@);
        }
        let segs = split_slashes(paths[i].as_str());
        let ghost sv = str_views(segs@);
        let ghost walk_base = recs_model(table.rows@);
        let mut pref = String::new();
        proof {
            assert(sv.take(0) =~= Seq::<Seq<char>>::empty());
            assert(sv.len() == segs@.len());
            assert(folder_walk(walk_base, sv.take(0), Seq::empty(), owner@, is_public)
                == walk_base);
            assert(pref_after(Seq::<char>::empty(), sv.take(0)) == Seq::<char>::empty());
        }
        let mut j: usize = 0;
        while j < segs.len()
            invariant
                j <= segs@.len(),
                sv == str_views(segs@),
                sv.len() == segs@.len(),
                table_wf(recs_model(table.rows@)),
                recs_model(table.rows@) == folder_walk(
                    walk_base,
                    sv.take(j as int),
                    Seq::empty(),
                    owner@,
                    is_public,
                ),
                pref@ == pref_after(Seq::<char>::empty(), sv.take(j as int)),
                recs_model(table.rows@).len() == table.rows@.len(),
                ms0.len() + count == table.rows@.len(),
            decreases segs@.len() - j,
        {
            proof {
                lemma_folder_walk_snoc(
                    walk_base,
                    sv,
                    j as int,
                    Seq::<char>::empty(),
                    owner@,
                    is_public,
                );
                assert(sv[j as int] == segs@[j as int]@);
            }
            let rec = FileRecord {
                id: String::new(),
                title: segs[j].clone(),
                owner_id: String::from_str(owner),
                size: 0,
                ftype: FileTypes::Other(String::from_str("folder")),
                path: pref.clone(),
                is_public,
            };
            proof {
                assert(rec@ == folder_rec_model(
                    owner@,
                    pref_after(Seq::<char>::empty(), sv.take(j as int)),
                    sv[j as int],
                    is_public,
                ));
            }
            let inserted = table.insert_do_nothing(rec);
            if inserted {
                let total = table.rows.len();
                proof {
                    assert(count < total);
                }
                count = count + 1;
            }
            if pref.as_str().is_empty() {
                pref = segs[j].clone();
            } else {
                pref.append("/");
                pref.append(segs[j].as_str());
            }
            proof {
                assert(pref@ == join_pref(
                    pref_after(Seq::<char>::empty(), sv.take(j as int)),
                    sv[j as int],
                ));
            }
            j = j + 1;
        }
        proof {
            assert(sv.take(sv.len() as int) =~= sv);
        }
        i = i + 1;
    }
    proof {
        assert(pv.take(pv.len() as int) =~= pv);
    }
    count
}


} // verus!
