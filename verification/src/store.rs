use vstd::prelude::*;

use crate::attach::Attachment;
use crate::attach::AttachmentView;
use crate::blob::Blob;
use crate::blob::BlobView;
use crate::error::ChatRecordError;
use crate::error::ChatRecordResult;
use crate::record::Record;
use crate::record::RecordView;
use crate::record::same_natural_key;

verus! {

/// The three logical tables of the store: records, content-addressed blobs
/// and attachment links, together with the id counters that assign surrogate
/// ids.
///
/// Every multi-row operation of the store is a sequence of single-row steps,
/// as the well-formedness invariant [`StoreView::wf`] describes: surrogate
/// ids are unique and below the corresponding counter, natural keys are
/// unique among records, `(record_id, name)` is unique among attachments,
/// and hashes are unique among blobs.
pub struct Store {
    records: Vec<Record>,
    blobs: Vec<Blob>,
    attachments: Vec<Attachment>,
    next_record_id: i32,
    next_attach_id: i32,
}

/// The mathematical value of a [`Store`]: the three tables as sequences of
/// row values, plus the id counters.
pub ghost struct StoreView {
    pub records: Seq<RecordView>,
    pub blobs: Seq<BlobView>,
    pub attachments: Seq<AttachmentView>,
    pub next_record_id: i32,
    pub next_attach_id: i32,
}

impl View for Store {
    type V = StoreView;

    closed spec fn view(&self) -> StoreView {
        StoreView {
            records: self.records@.map_values(|r: Record| r@),
            blobs: self.blobs@.map_values(|b: Blob| b@),
            attachments: self.attachments@.map_values(|a: Attachment| a@),
            next_record_id: self.next_record_id,
            next_attach_id: self.next_attach_id,
        }
    }
}

/// Well-formedness of the record table: every row carries an assigned
/// surrogate id below `next_id`, ids are unique, and natural keys are unique.
pub open spec fn records_wf(rows: Seq<RecordView>, next_id: i32) -> bool {
    &&& forall|i: int|
        0 <= i < rows.len() ==> (#[trigger] rows[i]).id is Some && 0 < rows[i].spec_get_id()
            < next_id
    &&& forall|i: int, j: int|
        0 <= i < j < rows.len() ==> (#[trigger] rows[i]).spec_get_id() != (
        #[trigger] rows[j]).spec_get_id()
    &&& forall|i: int, j: int|
        0 <= i < j < rows.len() ==> !same_natural_key(#[trigger] rows[i], #[trigger] rows[j])
}

/// Well-formedness of the attachment table: every row carries an assigned
/// surrogate id below `next_id`, ids are unique, and `(record_id, name)`
/// pairs are unique.
pub open spec fn attachments_wf(atts: Seq<AttachmentView>, next_id: i32) -> bool {
    &&& forall|i: int|
        0 <= i < atts.len() ==> (#[trigger] atts[i]).id is Some && 0 < atts[i].spec_get_id()
            < next_id
    &&& forall|i: int, j: int|
        0 <= i < j < atts.len() ==> (#[trigger] atts[i]).spec_get_id() != (
        #[trigger] atts[j]).spec_get_id()
    &&& forall|i: int, j: int|
        0 <= i < j < atts.len() ==> !((#[trigger] atts[i]).record_id == (
        #[trigger] atts[j]).record_id && atts[i].name == atts[j].name)
}

/// Well-formedness of the blob table: hashes are unique.
pub open spec fn blobs_wf(blobs: Seq<BlobView>) -> bool {
    forall|i: int, j: int|
        0 <= i < j < blobs.len() ==> (#[trigger] blobs[i]).hash != (#[trigger] blobs[j]).hash
}

impl StoreView {
    /// Well-formedness of the tables. Constructors establish it and every
    /// operation preserves it.
    pub open spec fn wf(self) -> bool {
        &&& 1 <= self.next_record_id
        &&& 1 <= self.next_attach_id
        &&& records_wf(self.records, self.next_record_id)
        &&& attachments_wf(self.attachments, self.next_attach_id)
        &&& blobs_wf(self.blobs)
    }

    /// Whether some blob row carries `hash`.
    pub open spec fn has_blob(self, hash: i64) -> bool {
        exists|i: int| 0 <= i < self.blobs.len() && (#[trigger] self.blobs[i]).hash == hash
    }
}

/// What inserting a blob does: nothing when its hash is already stored, one
/// appended row otherwise. Insertion always succeeds.
pub open spec fn spec_insert_blob(s: StoreView, b: BlobView) -> StoreView {
    if s.has_blob(b.hash) {
        s
    } else {
        StoreView { blobs: s.blobs.push(b), ..s }
    }
}

/// Dedup idempotence: inserting content whose hash the store already holds
/// changes nothing, so inserting the same blob twice leaves exactly the state
/// of inserting it once, and at most one row is ever added.
pub proof fn lemma_blob_dedup_idempotent(s: StoreView, b: BlobView)
    ensures
        spec_insert_blob(spec_insert_blob(s, b), b) == spec_insert_blob(s, b),
        spec_insert_blob(s, b).has_blob(b.hash),
        spec_insert_blob(s, b).blobs.len() <= s.blobs.len() + 1,
{
    if !s.has_blob(b.hash) {
        let s1 = spec_insert_blob(s, b);
        assert(s1.blobs[s.blobs.len() as int].hash == b.hash);
    }
}

/// The view of an optional byte payload.
pub open spec fn view_opt_bytes(m: Option<Vec<u8>>) -> Option<Seq<u8>> {
    match m {
        Some(v) => Some(v@),
        None => None,
    }
}

/// Whether `row` is hit by a write or removal identifying `r`: by surrogate
/// id when `r` carries one, or by natural key.
pub open spec fn record_matches(row: RecordView, r: RecordView) -> bool {
    (r.id is Some && row.id == r.id) || same_natural_key(row, r)
}

/// The existence probe of an upsert: `Some(old_metadata)` when a row matches
/// `r` — by natural key first, by supplied surrogate id otherwise — and
/// `None` when no row does.
pub open spec fn probe_metadata(rows: Seq<RecordView>, r: RecordView) -> Option<Option<Seq<u8>>> {
    if exists|i: int| 0 <= i < rows.len() && same_natural_key(#[trigger] rows[i], r) {
        let i = choose|i: int| 0 <= i < rows.len() && same_natural_key(#[trigger] rows[i], r);
        Some(rows[i].metadata)
    } else if r.id is Some && (exists|i: int|
        0 <= i < rows.len() && (#[trigger] rows[i]).id == r.id) {
        let i = choose|i: int| 0 <= i < rows.len() && (#[trigger] rows[i]).id == r.id;
        Some(rows[i].metadata)
    } else {
        None
    }
}

/// A conflicting row after an upsert: sender_name and content are always
/// overwritten, the metadata is replaced by the resolved value, and every
/// other field — the surrogate id and the natural key among them — stays.
pub open spec fn updated_row(row: RecordView, r: RecordView, m: Option<Seq<u8>>) -> RecordView {
    RecordView { sender_name: r.sender_name, content: r.content, metadata: m, ..row }
}

/// The record table after an update identifying `r`: every matching row is
/// overwritten as [`updated_row`] says, every other row stays.
pub open spec fn apply_update(rows: Seq<RecordView>, r: RecordView, m: Option<Seq<u8>>) -> Seq<
    RecordView,
> {
    Seq::new(
        rows.len(),
        |i: int|
            if record_matches(rows[i], r) {
                updated_row(rows[i], r, m)
            } else {
                rows[i]
            },
    )
}

/// How many rows a write or removal identifying `r` hits.
pub open spec fn count_matching(rows: Seq<RecordView>, r: RecordView) -> nat
    decreases rows.len(),
{
    if rows.len() == 0 {
        0
    } else {
        count_matching(rows.drop_last(), r) + if record_matches(rows.last(), r) {
            1nat
        } else {
            0nat
        }
    }
}

/// A fresh row as stored: the record's value with the assigned surrogate id.
pub open spec fn assigned_row(r: RecordView, id: i32) -> RecordView {
    RecordView { id: Some(id), ..r }
}

/// What inserting a record does. A record without an id gets the next free
/// one; a record carrying a positive unused id keeps it and pushes the
/// counter past it. An id outside the assignable range exhausts the store's
/// id space and is a storage error, as is a full counter.
pub open spec fn spec_insert_record(s: StoreView, r: RecordView) -> (StoreView, ChatRecordResult<
    usize,
>) {
    match r.id {
        None => if s.next_record_id == i32::MAX {
            (s, Err(ChatRecordError::Storage))
        } else {
            (
                StoreView {
                    records: s.records.push(assigned_row(r, s.next_record_id)),
                    next_record_id: (s.next_record_id + 1) as i32,
                    ..s
                },
                Ok(1),
            )
        },
        Some(i) => if i <= 0 || i == i32::MAX {
            (s, Err(ChatRecordError::Storage))
        } else {
            (
                StoreView {
                    records: s.records.push(r),
                    next_record_id: if i >= s.next_record_id {
                        (i + 1) as i32
                    } else {
                        s.next_record_id
                    },
                    ..s
                },
                Ok(1),
            )
        },
    }
}

/// Whether attachment row `a` carries the key `(record_id, name)`.
pub open spec fn attach_matches_key(a: AttachmentView, record_id: i32, name: Seq<char>) -> bool {
    a.record_id == record_id && a.name == name
}

/// Whether some attachment row carries the key `(record_id, name)`.
pub open spec fn has_attach_key(atts: Seq<AttachmentView>, record_id: i32, name: Seq<char>) -> bool {
    exists|k: int| 0 <= k < atts.len() && attach_matches_key(#[trigger] atts[k], record_id, name)
}

/// How many attachment rows carry the key `(record_id, name)`.
pub open spec fn count_attach_key(atts: Seq<AttachmentView>, record_id: i32, name: Seq<char>) -> nat
    decreases atts.len(),
{
    if atts.len() == 0 {
        0
    } else {
        count_attach_key(atts.drop_last(), record_id, name) + if attach_matches_key(
            atts.last(),
            record_id,
            name,
        ) {
            1nat
        } else {
            0nat
        }
    }
}

/// The attachment table after re-pointing the key `(record_id, name)` at a
/// new blob: every row with the key gets `hash`, every other row stays.
pub open spec fn apply_attach_update(
    atts: Seq<AttachmentView>,
    record_id: i32,
    name: Seq<char>,
    hash: i64,
) -> Seq<AttachmentView> {
    Seq::new(
        atts.len(),
        |i: int|
            if attach_matches_key(atts[i], record_id, name) {
                AttachmentView { hash, ..atts[i] }
            } else {
                atts[i]
            },
    )
}

/// What upserting an attachment link does: a stored `(record_id, name)` key
/// is re-pointed at `hash`; a fresh key becomes a new row under the next
/// surrogate id, unless the id space is exhausted.
pub open spec fn spec_upsert_attach(
    s: StoreView,
    record_id: i32,
    name: Seq<char>,
    hash: i64,
) -> (StoreView, ChatRecordResult<bool>) {
    if has_attach_key(s.attachments, record_id, name) {
        (
            StoreView {
                attachments: apply_attach_update(s.attachments, record_id, name, hash),
                ..s
            },
            Ok(count_attach_key(s.attachments, record_id, name) == 1),
        )
    } else if s.next_attach_id == i32::MAX {
        (s, Err(ChatRecordError::Storage))
    } else {
        (
            StoreView {
                attachments: s.attachments.push(
                    AttachmentView { id: Some(s.next_attach_id), record_id, name, hash },
                ),
                next_attach_id: (s.next_attach_id + 1) as i32,
                ..s
            },
            Ok(true),
        )
    }
}

/// What attaching named content to a record does: the content is stored in
/// the blob table under its content hash — a no-op when already present —
/// and the `(record_id, name)` link is pointed at that hash.
pub open spec fn spec_insert_or_update_attach(
    s: StoreView,
    data: Seq<u8>,
    name: Seq<char>,
    record_id: i32,
) -> (StoreView, ChatRecordResult<bool>) {
    let h = crate::hashing::content_hash_of(data);
    let s1 = spec_insert_blob(s, BlobView { hash: h, blob: data });
    spec_upsert_attach(s1, record_id, name, h)
}

/// The attachment rows of one record, in table order.
pub open spec fn attachments_of(atts: Seq<AttachmentView>, record_id: i32) -> Seq<AttachmentView>
    decreases atts.len(),
{
    if atts.len() == 0 {
        Seq::empty()
    } else {
        let rest = attachments_of(atts.drop_last(), record_id);
        if atts.last().record_id == record_id {
            rest.push(atts.last())
        } else {
            rest
        }
    }
}

/// The attachment table after removing every row of one record, in order.
pub open spec fn remove_record_attachments(atts: Seq<AttachmentView>, record_id: i32) -> Seq<
    AttachmentView,
>
    decreases atts.len(),
{
    if atts.len() == 0 {
        Seq::empty()
    } else {
        let rest = remove_record_attachments(atts.drop_last(), record_id);
        if atts.last().record_id == record_id {
            rest
        } else {
            rest.push(atts.last())
        }
    }
}

/// A table with no row of the record has no attachments of it.
pub proof fn lemma_attachments_of_none(atts: Seq<AttachmentView>, record_id: i32)
    requires
        forall|k: int| 0 <= k < atts.len() ==> (#[trigger] atts[k]).record_id != record_id,
    ensures
        attachments_of(atts, record_id) == Seq::<AttachmentView>::empty(),
    decreases atts.len(),
{
    if atts.len() > 0 {
        let front = atts.drop_last();
        assert(forall|t: int| 0 <= t < front.len() ==> #[trigger] front[t] == atts[t]);
        lemma_attachments_of_none(front, record_id);
    }
}

/// What removing a record's attachments keeps: only rows of other records,
/// each a row of the table it started from, well-formedness preserved.
pub proof fn lemma_remove_record_attachments(atts: Seq<AttachmentView>, record_id: i32, next_id: i32)
    requires
        attachments_wf(atts, next_id),
    ensures
        remove_record_attachments(atts, record_id).len() + attachments_of(atts, record_id).len()
            == atts.len(),
        forall|k: int|
            0 <= k < remove_record_attachments(atts, record_id).len() ==> (
            #[trigger] remove_record_attachments(atts, record_id)[k]).record_id != record_id,
        forall|k: int|
            0 <= k < remove_record_attachments(atts, record_id).len() ==> atts.contains(
                #[trigger] remove_record_attachments(atts, record_id)[k],
            ),
        attachments_wf(remove_record_attachments(atts, record_id), next_id),
    decreases atts.len(),
{
    if atts.len() > 0 {
        let front = atts.drop_last();
        assert(attachments_wf(front, next_id));
        lemma_remove_record_attachments(front, record_id, next_id);
        let rest = remove_record_attachments(front, record_id);
        let res = remove_record_attachments(atts, record_id);
        assert forall|k: int| 0 <= k < rest.len() implies atts.contains(#[trigger] rest[k]) by {
            let j = choose|j: int| 0 <= j < front.len() && front[j] == rest[k];
            assert(atts[j] == rest[k]);
        }
        if atts.last().record_id != record_id {
            assert(res == rest.push(atts.last()));
            assert forall|k: int| 0 <= k < res.len() implies atts.contains(#[trigger] res[k]) by {
                if k < rest.len() {
                    assert(res[k] == rest[k]);
                } else {
                    assert(res[k] == atts[atts.len() - 1]);
                }
            }
            assert forall|i: int, j: int| 0 <= i < j < res.len() implies (
            #[trigger] res[i]).spec_get_id() != (#[trigger] res[j]).spec_get_id() && !(
            res[i].record_id == res[j].record_id && res[i].name == res[j].name) by {
                if j == rest.len() {
                    assert(res[j] == atts[atts.len() - 1]);
                    assert(res[i] == rest[i]);
                    let t = choose|t: int| 0 <= t < front.len() && front[t] == rest[i];
                    assert(atts[t] == res[i]);
                    assert(t < atts.len() - 1);
                }
            }
        }
    }
}

/// Whether attachment row `row` is hit by a removal identifying `a`: by
/// surrogate id when `a` carries one, or by its `(record_id, name)` key.
pub open spec fn attach_matches(row: AttachmentView, a: AttachmentView) -> bool {
    (a.id is Some && row.id == a.id) || (row.record_id == a.record_id && row.name == a.name)
}

/// The attachment table after a removal identifying `a`, in order.
pub open spec fn remove_matching_attachments(atts: Seq<AttachmentView>, a: AttachmentView) -> Seq<
    AttachmentView,
>
    decreases atts.len(),
{
    if atts.len() == 0 {
        Seq::empty()
    } else {
        let rest = remove_matching_attachments(atts.drop_last(), a);
        if attach_matches(atts.last(), a) {
            rest
        } else {
            rest.push(atts.last())
        }
    }
}

/// How many attachment rows a removal identifying `a` hits.
pub open spec fn count_matching_attachments(atts: Seq<AttachmentView>, a: AttachmentView) -> nat
    decreases atts.len(),
{
    if atts.len() == 0 {
        0
    } else {
        count_matching_attachments(atts.drop_last(), a) + if attach_matches(atts.last(), a) {
            1nat
        } else {
            0nat
        }
    }
}

/// What a single-row removal keeps: only non-matching rows, each a row of
/// the table it started from, well-formedness preserved.
proof fn lemma_remove_matching_attachments(atts: Seq<AttachmentView>, a: AttachmentView, next_id: i32)
    requires
        attachments_wf(atts, next_id),
    ensures
        remove_matching_attachments(atts, a).len() + count_matching_attachments(atts, a)
            == atts.len(),
        forall|k: int|
            0 <= k < remove_matching_attachments(atts, a).len() ==> atts.contains(
                #[trigger] remove_matching_attachments(atts, a)[k],
            ),
        attachments_wf(remove_matching_attachments(atts, a), next_id),
    decreases atts.len(),
{
    if atts.len() > 0 {
        let front = atts.drop_last();
        assert(attachments_wf(front, next_id));
        lemma_remove_matching_attachments(front, a, next_id);
        let rest = remove_matching_attachments(front, a);
        let res = remove_matching_attachments(atts, a);
        assert forall|k: int| 0 <= k < rest.len() implies atts.contains(#[trigger] rest[k]) by {
            let j = choose|j: int| 0 <= j < front.len() && front[j] == rest[k];
            assert(atts[j] == rest[k]);
        }
        if !attach_matches(atts.last(), a) {
            assert(res == rest.push(atts.last()));
            assert forall|k: int| 0 <= k < res.len() implies atts.contains(#[trigger] res[k]) by {
                if k < rest.len() {
                    assert(res[k] == rest[k]);
                } else {
                    assert(res[k] == atts[atts.len() - 1]);
                }
            }
            assert forall|i: int, j: int| 0 <= i < j < res.len() implies (
            #[trigger] res[i]).spec_get_id() != (#[trigger] res[j]).spec_get_id() && !(
            res[i].record_id == res[j].record_id && res[i].name == res[j].name) by {
                if j == rest.len() {
                    assert(res[j] == atts[atts.len() - 1]);
                    assert(res[i] == rest[i]);
                    let t = choose|t: int| 0 <= t < front.len() && front[t] == rest[i];
                    assert(atts[t] == res[i]);
                    assert(t < atts.len() - 1);
                }
            }
        }
    }
}

/// What the resolved metadata of a conflicting upsert may be, given what the
/// probe found: when the incoming record carries metadata and old metadata
/// existed, any output the merge policy admits for that pair; when only the
/// incoming record carries metadata, that metadata; when it carries none,
/// the old metadata unchanged. A fresh insert constrains nothing.
pub open spec fn merge_resolved_ok<F: Fn(Vec<u8>, Vec<u8>) -> Option<Vec<u8>>>(
    merger: F,
    probed: Option<Option<Seq<u8>>>,
    new_meta: Option<Seq<u8>>,
    mo: Option<Seq<u8>>,
) -> bool {
    match probed {
        None => true,
        Some(old_meta) => match new_meta {
            Some(m2) => match old_meta {
                Some(m1) => exists|a: Vec<u8>, b: Vec<u8>, out: Option<Vec<u8>>|
                    a@ == m1 && b@ == m2 && #[trigger] call_ensures(merger, (a, b), out) && mo
                        == view_opt_bytes(out),
                None => mo == Some(m2),
            },
            None => mo == old_meta,
        },
    }
}

/// What an upsert does, given the resolved metadata `mo` for the conflict
/// case: when a row matches — by natural key or supplied id — every matching
/// row is overwritten and the call reports whether exactly one row was hit;
/// when none matches, the record is inserted as [`spec_insert_record`] says.
pub open spec fn spec_upsert_record(s: StoreView, r: RecordView, mo: Option<Seq<u8>>) -> (
    StoreView,
    ChatRecordResult<bool>,
) {
    match probe_metadata(s.records, r) {
        Some(_) => (
            StoreView { records: apply_update(s.records, r, mo), ..s },
            Ok(count_matching(s.records, r) == 1),
        ),
        None => {
            let (s2, res) = spec_insert_record(s, r);
            (
                s2,
                match res {
                    Ok(n) => Ok(n == 1),
                    Err(e) => Err(e),
                },
            )
        },
    }
}

/// The record table after a removal identifying `r`: every matching row —
/// by supplied surrogate id or natural key — is gone, every other row stays,
/// in order.
pub open spec fn remove_matching_records(rows: Seq<RecordView>, r: RecordView) -> Seq<RecordView>
    decreases rows.len(),
{
    if rows.len() == 0 {
        Seq::empty()
    } else {
        let rest = remove_matching_records(rows.drop_last(), r);
        if record_matches(rows.last(), r) {
            rest
        } else {
            rest.push(rows.last())
        }
    }
}

/// What a removal keeps: only non-matching rows, each a row of the starting
/// table, as many as that table has non-matching rows; and every row it
/// keeps, it keeps the well-formedness of.
proof fn lemma_remove_matching_records(rows: Seq<RecordView>, r: RecordView, next_id: i32)
    requires
        records_wf(rows, next_id),
    ensures
        remove_matching_records(rows, r).len() + count_matching(rows, r) == rows.len(),
        forall|k: int|
            0 <= k < remove_matching_records(rows, r).len() ==> !record_matches(
                #[trigger] remove_matching_records(rows, r)[k],
                r,
            ),
        forall|k: int|
            0 <= k < remove_matching_records(rows, r).len() ==> rows.contains(
                #[trigger] remove_matching_records(rows, r)[k],
            ),
        records_wf(remove_matching_records(rows, r), next_id),
    decreases rows.len(),
{
    if rows.len() > 0 {
        let front = rows.drop_last();
        assert(records_wf(front, next_id));
        lemma_remove_matching_records(front, r, next_id);
        let rest = remove_matching_records(front, r);
        let res = remove_matching_records(rows, r);
        assert forall|k: int| 0 <= k < rest.len() implies rows.contains(#[trigger] rest[k]) by {
            let j = choose|j: int| 0 <= j < front.len() && front[j] == rest[k];
            assert(rows[j] == rest[k]);
        }
        if !record_matches(rows.last(), r) {
            assert(res == rest.push(rows.last()));
            assert forall|k: int| 0 <= k < res.len() implies rows.contains(#[trigger] res[k]) by {
                if k < rest.len() {
                    assert(res[k] == rest[k]);
                } else {
                    assert(res[k] == rows[rows.len() - 1]);
                }
            }
            assert forall|i: int, j: int| 0 <= i < j < res.len() implies (
            #[trigger] res[i]).spec_get_id() != (#[trigger] res[j]).spec_get_id()
                && !same_natural_key(res[i], res[j]) by {
                if j == rest.len() {
                    assert(res[j] == rows[rows.len() - 1]);
                    assert(res[i] == rest[i]);
                    let t = choose|t: int| 0 <= t < front.len() && front[t] == rest[i];
                    assert(rows[t] == res[i]);
                    assert(t < rows.len() - 1);
                }
            }
        }
    }
}

/// Whether some record row carries the surrogate id `id`.
pub open spec fn has_record_id(rows: Seq<RecordView>, id: i32) -> bool {
    exists|k: int| 0 <= k < rows.len() && (#[trigger] rows[k]).id == Some(id)
}

/// The id that a record resolves to: the id of the first row it matches —
/// by supplied surrogate id or natural key — or 0 when it matches none.
pub open spec fn first_match_id(rows: Seq<RecordView>, r: RecordView) -> i32
    decreases rows.len(),
{
    if rows.len() == 0 {
        0
    } else if record_matches(rows[0], r) {
        rows[0].spec_get_id()
    } else {
        first_match_id(rows.drop_first(), r)
    }
}

/// The record table after deleting the row with surrogate id `id`, in order.
pub open spec fn remove_record_id_rows(rows: Seq<RecordView>, id: i32) -> Seq<RecordView>
    decreases rows.len(),
{
    if rows.len() == 0 {
        Seq::empty()
    } else {
        let rest = remove_record_id_rows(rows.drop_last(), id);
        if rows.last().id == Some(id) {
            rest
        } else {
            rest.push(rows.last())
        }
    }
}

/// Deleting an id that no row carries changes nothing.
proof fn lemma_remove_record_id_none(rows: Seq<RecordView>, id: i32)
    requires
        forall|j: int| 0 <= j < rows.len() ==> (#[trigger] rows[j]).id != Some(id),
    ensures
        remove_record_id_rows(rows, id) == rows,
    decreases rows.len(),
{
    if rows.len() > 0 {
        let front = rows.drop_last();
        assert(forall|k: int| 0 <= k < front.len() ==> #[trigger] front[k] == rows[k]);
        lemma_remove_record_id_none(front, id);
        assert(remove_record_id_rows(rows, id) =~= rows);
    }
}

/// Deleting an id that exactly one row carries removes exactly that row.
proof fn lemma_remove_record_id_hit(rows: Seq<RecordView>, id: i32, k: int)
    requires
        0 <= k < rows.len(),
        rows[k].id == Some(id),
        forall|j: int| 0 <= j < rows.len() && j != k ==> (#[trigger] rows[j]).id != Some(id),
    ensures
        remove_record_id_rows(rows, id) == rows.remove(k),
    decreases rows.len(),
{
    let front = rows.drop_last();
    assert(forall|t: int| 0 <= t < front.len() ==> #[trigger] front[t] == rows[t]);
    if k == rows.len() - 1 {
        lemma_remove_record_id_none(front, id);
        assert(remove_record_id_rows(rows, id) =~= rows.remove(k));
    } else {
        lemma_remove_record_id_hit(front, id, k);
        assert(remove_record_id_rows(rows, id) =~= rows.remove(k));
    }
}

/// Removing a row keeps the record table well-formed.
proof fn lemma_records_remove_wf(rows: Seq<RecordView>, k: int, next_id: i32)
    requires
        records_wf(rows, next_id),
        0 <= k < rows.len(),
    ensures
        records_wf(rows.remove(k), next_id),
{
    let res = rows.remove(k);
    assert forall|i: int| 0 <= i < res.len() implies (#[trigger] res[i]).id is Some && 0
        < res[i].spec_get_id() < next_id by {
        if i < k {
            assert(res[i] == rows[i]);
        } else {
            assert(res[i] == rows[i + 1]);
        }
    }
    assert forall|i: int, j: int| 0 <= i < j < res.len() implies (#[trigger] res[i]).spec_get_id()
        != (#[trigger] res[j]).spec_get_id() && !same_natural_key(res[i], res[j]) by {
        let i0 = if i < k {
            i
        } else {
            i + 1
        };
        let j0 = if j < k {
            j
        } else {
            j + 1
        };
        assert(res[i] == rows[i0]);
        assert(res[j] == rows[j0]);
    }
}

/// Inserting a fresh record preserves well-formedness: the new row's id is
/// in range and unused, and its natural key conflicts with no stored row.
proof fn lemma_insert_wf(pre: StoreView, r: RecordView, post: StoreView)
    requires
        pre.wf(),
        forall|k: int|
            0 <= k < pre.records.len() ==> !same_natural_key(#[trigger] pre.records[k], r),
        r.id is Some ==> (forall|k: int|
            0 <= k < pre.records.len() ==> (#[trigger] pre.records[k]).id != r.id),
        post == spec_insert_record(pre, r).0,
        spec_insert_record(pre, r).1 is Ok,
    ensures
        post.wf(),
{
    let rs = post.records;
    let newi = pre.records.len() as int;
    assert(forall|k: int| 0 <= k < newi ==> #[trigger] rs[k] == pre.records[k]);
    assert forall|k: int| 0 <= k < rs.len() implies (#[trigger] rs[k]).id is Some && 0
        < rs[k].spec_get_id() < post.next_record_id by {
        if k < newi {
            assert(rs[k] == pre.records[k]);
            assert(pre.next_record_id <= post.next_record_id);
        }
    }
    assert forall|i2: int, j2: int| 0 <= i2 < j2 < rs.len() implies (
    #[trigger] rs[i2]).spec_get_id() != (#[trigger] rs[j2]).spec_get_id() by {
        if j2 == newi {
            assert(rs[i2] == pre.records[i2]);
            match r.id {
                None => {
                    assert(pre.records[i2].spec_get_id() < pre.next_record_id);
                },
                Some(v) => {
                    assert(pre.records[i2].id != r.id);
                },
            }
        }
    }
    assert forall|i2: int, j2: int| 0 <= i2 < j2 < rs.len() implies !same_natural_key(
        #[trigger] rs[i2],
        #[trigger] rs[j2],
    ) by {
        if j2 == newi {
            assert(rs[i2] == pre.records[i2]);
            assert(!same_natural_key(pre.records[i2], r));
        }
    }
}

/// Overwriting matched rows preserves well-formedness: the update touches
/// neither surrogate ids nor natural keys.
pub proof fn lemma_apply_update_wf(s: StoreView, r: RecordView, mo: Option<Seq<u8>>)
    requires
        s.wf(),
    ensures
        (StoreView { records: apply_update(s.records, r, mo), ..s }).wf(),
{
    let rs = apply_update(s.records, r, mo);
    assert forall|k: int| 0 <= k < rs.len() implies (#[trigger] rs[k]).id == s.records[k].id
        && rs[k].chat_type == s.records[k].chat_type && rs[k].owner_id == s.records[k].owner_id
        && rs[k].group_id == s.records[k].group_id && rs[k].sender_id == s.records[k].sender_id
        && rs[k].timestamp == s.records[k].timestamp by {}
    assert forall|i: int, j: int| 0 <= i < j < rs.len() implies !same_natural_key(
        #[trigger] rs[i],
        #[trigger] rs[j],
    ) && (#[trigger] rs[i]).spec_get_id() != (#[trigger] rs[j]).spec_get_id() by {
        assert(!same_natural_key(s.records[i], s.records[j]));
        assert(s.records[i].spec_get_id() != s.records[j].spec_get_id());
    }
}

/// Every upsert outcome preserves well-formedness of the store.
pub proof fn lemma_spec_upsert_wf(s: StoreView, r: RecordView, mo: Option<Seq<u8>>)
    requires
        s.wf(),
    ensures
        spec_upsert_record(s, r, mo).0.wf(),
{
    match probe_metadata(s.records, r) {
        Some(_) => {
            lemma_apply_update_wf(s, r, mo);
        },
        None => {
            if spec_insert_record(s, r).1 is Ok {
                lemma_insert_wf(s, r, spec_insert_record(s, r).0);
            }
        },
    }
}

/// A record without a surrogate id that no row matches by natural key is
/// counted zero times.
proof fn lemma_count_matching_none(rows: Seq<RecordView>, r: RecordView)
    requires
        r.id is None,
        forall|j: int| 0 <= j < rows.len() ==> !same_natural_key(#[trigger] rows[j], r),
    ensures
        count_matching(rows, r) == 0,
    decreases rows.len(),
{
    if rows.len() > 0 {
        let front = rows.drop_last();
        assert(forall|t: int| 0 <= t < front.len() ==> #[trigger] front[t] == rows[t]);
        lemma_count_matching_none(front, r);
    }
}

/// In a well-formed table a record without a surrogate id whose natural key
/// some row carries is counted exactly once.
pub proof fn lemma_count_matching_unique(rows: Seq<RecordView>, r: RecordView, next_id: i32)
    requires
        records_wf(rows, next_id),
        r.id is None,
        exists|k: int| 0 <= k < rows.len() && same_natural_key(#[trigger] rows[k], r),
    ensures
        count_matching(rows, r) == 1,
    decreases rows.len(),
{
    let k = choose|k: int| 0 <= k < rows.len() && same_natural_key(#[trigger] rows[k], r);
    let front = rows.drop_last();
    assert(forall|t: int| 0 <= t < front.len() ==> #[trigger] front[t] == rows[t]);
    assert(records_wf(front, next_id));
    if k == rows.len() - 1 {
        assert forall|j: int| 0 <= j < front.len() implies !same_natural_key(
            #[trigger] front[j],
            r,
        ) by {
            if same_natural_key(rows[j], r) {
                assert(same_natural_key(rows[j], rows[k]) || same_natural_key(rows[k], rows[j]));
            }
        }
        lemma_count_matching_none(front, r);
        assert(record_matches(rows.last(), r));
    } else {
        assert(!same_natural_key(rows.last(), r)) by {
            if same_natural_key(rows[rows.len() - 1], r) {
                assert(same_natural_key(rows[k], rows[rows.len() - 1]) || same_natural_key(
                    rows[rows.len() - 1],
                    rows[k],
                ));
            }
        }
        assert(0 <= k < front.len() && same_natural_key(front[k], r));
        lemma_count_matching_unique(front, r, next_id);
    }
}

/// Whether row `k` is the only row carrying `r`'s natural key, and holds
/// `r`'s sender_name and content.
pub open spec fn sole_natural_key_row(rows: Seq<RecordView>, r: RecordView, k: int) -> bool {
    &&& 0 <= k < rows.len()
    &&& same_natural_key(rows[k], r)
    &&& rows[k].sender_name == r.sender_name
    &&& rows[k].content == r.content
    &&& forall|j: int| 0 <= j < rows.len() && j != k ==> !same_natural_key(#[trigger] rows[j], r)
}

/// Upsert identity: two successive upserts of records carrying the same
/// natural key and no surrogate id write the same row. When the first call
/// succeeded, the second updates that row in place — the table keeps its
/// size, the second call succeeds — and afterwards exactly one row carries
/// the key, holding the second record's sender_name and content.
pub proof fn lemma_upsert_identity(
    s: StoreView,
    r1: RecordView,
    r2: RecordView,
    mo1: Option<Seq<u8>>,
    mo2: Option<Seq<u8>>,
)
    requires
        s.wf(),
        r1.id is None,
        r2.id is None,
        same_natural_key(r1, r2),
        spec_upsert_record(s, r1, mo1).1 == Ok::<bool, ChatRecordError>(true),
    ensures
        spec_upsert_record(spec_upsert_record(s, r1, mo1).0, r2, mo2).1 == Ok::<
            bool,
            ChatRecordError,
        >(true),
        spec_upsert_record(spec_upsert_record(s, r1, mo1).0, r2, mo2).0.records.len()
            == spec_upsert_record(s, r1, mo1).0.records.len(),
        exists|k: int|
            #[trigger] sole_natural_key_row(
                spec_upsert_record(spec_upsert_record(s, r1, mo1).0, r2, mo2).0.records,
                r2,
                k,
            ),
{
    lemma_spec_upsert_wf(s, r1, mo1);
    let s1 = spec_upsert_record(s, r1, mo1).0;
    let k1: int = {
        match probe_metadata(s.records, r1) {
            Some(_) => {
                assert(exists|i: int|
                    0 <= i < s.records.len() && same_natural_key(#[trigger] s.records[i], r1));
                let i = choose|i: int|
                    0 <= i < s.records.len() && same_natural_key(#[trigger] s.records[i], r1);
                assert(s1.records == apply_update(s.records, r1, mo1));
                assert(record_matches(s.records[i], r1));
                assert(same_natural_key(s1.records[i], r1));
                i
            },
            None => {
                assert(spec_insert_record(s, r1).1 == Ok::<usize, ChatRecordError>(1));
                let i = s.records.len() as int;
                assert(s1.records[i] == assigned_row(r1, s.next_record_id));
                assert(same_natural_key(s1.records[i], r1));
                i
            },
        }
    };
    assert(same_natural_key(s1.records[k1], r2));
    assert(probe_metadata(s1.records, r2) is Some);
    lemma_count_matching_unique(s1.records, r2, s1.next_record_id);
    let s2 = spec_upsert_record(s1, r2, mo2).0;
    assert(s2.records == apply_update(s1.records, r2, mo2));
    assert(record_matches(s1.records[k1], r2));
    assert(s2.records[k1] == updated_row(s1.records[k1], r2, mo2));
    assert forall|j: int| 0 <= j < s2.records.len() && j != k1 implies !same_natural_key(
        #[trigger] s2.records[j],
        r2,
    ) by {
        assert(s2.records[j].chat_type == s1.records[j].chat_type && s2.records[j].owner_id
            == s1.records[j].owner_id && s2.records[j].group_id == s1.records[j].group_id
            && s2.records[j].sender_id == s1.records[j].sender_id && s2.records[j].timestamp
            == s1.records[j].timestamp);
        if same_natural_key(s2.records[j], r2) {
            assert(same_natural_key(s1.records[j], s1.records[k1]) || same_natural_key(
                s1.records[k1],
                s1.records[j],
            ));
        }
    }
    assert(sole_natural_key_row(s2.records, r2, k1));
}

/// A surrogate id, once assigned, never changes: across any upsert every
/// stored row keeps its id and its natural key, and rows are never displaced.
pub proof fn lemma_ids_stable_under_upsert(s: StoreView, r: RecordView, mo: Option<Seq<u8>>)
    ensures
        spec_upsert_record(s, r, mo).0.records.len() >= s.records.len(),
        forall|k: int|
            0 <= k < s.records.len() ==> (#[trigger] spec_upsert_record(s, r, mo).0.records[k]).id
                == s.records[k].id && same_natural_key(
                spec_upsert_record(s, r, mo).0.records[k],
                s.records[k],
            ),
{
    let rs = spec_upsert_record(s, r, mo).0.records;
    match probe_metadata(s.records, r) {
        Some(_) => {
            assert forall|k: int| 0 <= k < s.records.len() implies (#[trigger] rs[k]).id
                == s.records[k].id && same_natural_key(rs[k], s.records[k]) by {}
        },
        None => {
            if spec_insert_record(s, r).1 is Ok {
                assert forall|k: int| 0 <= k < s.records.len() implies (#[trigger] rs[k]).id
                    == s.records[k].id && same_natural_key(rs[k], s.records[k]) by {
                    assert(rs[k] == s.records[k]);
                }
            }
        },
    }
}

/// Metadata merge contract: on a conflicting upsert every matched row
/// stores exactly the resolved metadata, with the incoming sender_name and
/// content.
pub proof fn lemma_metadata_merge(s: StoreView, r: RecordView, mo: Option<Seq<u8>>, k: int)
    requires
        probe_metadata(s.records, r) is Some,
        0 <= k < s.records.len(),
        record_matches(s.records[k], r),
    ensures
        spec_upsert_record(s, r, mo).0.records[k].metadata == mo,
        spec_upsert_record(s, r, mo).0.records[k].sender_name == r.sender_name,
        spec_upsert_record(s, r, mo).0.records[k].content == r.content,
{
}

impl Store {
    /// An empty store.
    pub fn new() -> (r: Store)
        ensures
            r@.records == Seq::<RecordView>::empty(),
            r@.blobs == Seq::<BlobView>::empty(),
            r@.attachments == Seq::<AttachmentView>::empty(),
            r@.wf(),
    {
        let s = Store {
            records: Vec::new(),
            blobs: Vec::new(),
            attachments: Vec::new(),
            next_record_id: 1,
            next_attach_id: 1,
        };
        proof {
            assert(s@.records =~= Seq::<RecordView>::empty());
            assert(s@.blobs =~= Seq::<BlobView>::empty());
            assert(s@.attachments =~= Seq::<AttachmentView>::empty());
        }
        s
    }

    /// Whether a blob with this hash is already stored.
    fn check_blob(&self, hash: i64) -> (r: bool)
        ensures
            r == self@.has_blob(hash),
    {
        let n = self.blobs.len();
        let mut i: usize = 0;
        while i < n
            invariant
                n == self.blobs@.len(),
                i <= n,
                self@.blobs.len() == n,
                forall|k: int| 0 <= k < i ==> (#[trigger] self@.blobs[k]).hash != hash,
            decreases n - i,
        {
            if self.blobs[i].hash == hash {
                assert(self@.blobs[i as int].hash == hash);
                return true;
            }
            i = i + 1;
        }
        false
    }

    /// Content-addressed, idempotent insertion: when a blob with this hash is
    /// already stored the call is a no-op that still reports success; a
    /// duplicate is never an error and never a second row.
    pub fn insert_blob(&mut self, blob: &Blob) -> (r: ChatRecordResult<bool>)
        requires
            old(self)@.wf(),
        ensures
            final(self)@.wf(),
            r == Ok::<bool, ChatRecordError>(true),
            final(self)@ == spec_insert_blob(old(self)@, blob@),
    {
        if self.check_blob(blob.hash) {
            Ok(true)
        } else {
            let ghost pre = self@;
            self.blobs.push(blob.clone());
            proof {
                assert(self@.blobs =~= pre.blobs.push(blob@));
                assert(self@ == StoreView { blobs: pre.blobs.push(blob@), ..pre });
            }
            Ok(true)
        }
    }

    /// The stored bytes of the blob with this hash; `NotFound` exactly when
    /// no blob carries it.
    pub fn get_blob(&self, hash: i64) -> (r: ChatRecordResult<Vec<u8>>)
        requires
            self@.wf(),
        ensures
            match r {
                Ok(bytes) => self@.has_blob(hash) && (forall|i: int|
                    0 <= i < self@.blobs.len() && (#[trigger] self@.blobs[i]).hash == hash
                        ==> bytes@ == self@.blobs[i].blob),
                Err(e) => e == ChatRecordError::NotFound && !self@.has_blob(hash),
            },
    {
        let n = self.blobs.len();
        let mut i: usize = 0;
        while i < n
            invariant
                self@.wf(),
                n == self.blobs@.len(),
                i <= n,
                self@.blobs.len() == n,
                forall|k: int| 0 <= k < i ==> (#[trigger] self@.blobs[k]).hash != hash,
            decreases n - i,
        {
            if self.blobs[i].hash == hash {
                let bytes = self.blobs[i].blob.clone();
                assert(self@.blobs[i as int].hash == hash);
                return Ok(bytes);
            }
            i = i + 1;
        }
        Err(ChatRecordError::NotFound)
    }

    /// Removes the blob with this hash, reporting how many rows went away
    /// (0 or 1). Whether attachments still reference the hash is not checked:
    /// blobs are not reference-counted.
    pub fn remove_blob(&mut self, hash: i64) -> (r: ChatRecordResult<usize>)
        requires
            old(self)@.wf(),
        ensures
            final(self)@.wf(),
            !old(self)@.has_blob(hash) ==> final(self)@ == old(self)@ && r == Ok::<
                usize,
                ChatRecordError,
            >(0),
            old(self)@.has_blob(hash) ==> r == Ok::<usize, ChatRecordError>(1) && (exists|i: int|
                0 <= i < old(self)@.blobs.len() && (#[trigger] old(self)@.blobs[i]).hash == hash
                    && final(self)@ == (StoreView {
                    blobs: old(self)@.blobs.remove(i),
                    ..old(self)@
                })),
    {
        let n = self.blobs.len();
        let mut i: usize = 0;
        while i < n
            invariant
                old(self) == self,
                self@.wf(),
                n == self.blobs@.len(),
                i <= n,
                self@.blobs.len() == n,
                forall|k: int| 0 <= k < i ==> (#[trigger] self@.blobs[k]).hash != hash,
            decreases n - i,
        {
            if self.blobs[i].hash == hash {
                let ghost pre = self@;
                let ghost idx = i as int;
                assert(pre.blobs[idx].hash == hash);
                self.blobs.remove(i);
                proof {
                    assert(self@.blobs =~= pre.blobs.remove(idx));
                    assert(self@ == StoreView { blobs: pre.blobs.remove(idx), ..pre });
                }
                return Ok(1);
            }
            i = i + 1;
        }
        Ok(0)
    }
}

/// A clone of an optional byte payload, keeping its value.
fn clone_opt_bytes(m: &Option<Vec<u8>>) -> (r: Option<Vec<u8>>)
    ensures
        view_opt_bytes(r) == view_opt_bytes(*m),
{
    match m {
        Some(v) => Some(v.clone()),
        None => None,
    }
}

/// Whether `row` is hit by a write or removal identifying `r`.
fn row_matches(row: &Record, r: &Record) -> (b: bool)
    ensures
        b == record_matches(row@, r@),
{
    let id_hit = match (&r.id, &row.id) {
        (Some(a), Some(b)) => *a == *b,
        _ => false,
    };
    id_hit || row.natural_key_eq(r)
}

impl Store {
    /// The upsert existence probe: the old metadata of the row that `record`
    /// conflicts with — matched by natural key first, by supplied surrogate
    /// id otherwise — or `None` when the record is new.
    fn check_record(&self, record: &Record) -> (r: Option<Option<Vec<u8>>>)
        requires
            self@.wf(),
        ensures
            match r {
                Some(m) => probe_metadata(self@.records, record@) == Some(view_opt_bytes(m)),
                None => probe_metadata(self@.records, record@) is None,
            },
    {
        let ghost rows = self@.records;
        let n = self.records.len();
        let mut i: usize = 0;
        while i < n
            invariant
                self@.wf(),
                rows == self@.records,
                n == self.records@.len(),
                i <= n,
                rows.len() == n,
                forall|k: int| 0 <= k < i ==> !same_natural_key(#[trigger] rows[k], record@),
            decreases n - i,
        {
            if self.records[i].natural_key_eq(record) {
                let m = clone_opt_bytes(&self.records[i].metadata);
                proof {
                    assert(same_natural_key(rows[i as int], record@));
                    let j = choose|j: int|
                        0 <= j < rows.len() && same_natural_key(#[trigger] rows[j], record@);
                    if j != i as int {
                        assert(!same_natural_key(rows[j], rows[i as int]) || !same_natural_key(
                            rows[i as int],
                            rows[j],
                        ));
                    }
                }
                return Some(m);
            }
            i = i + 1;
        }
        let idv = match &record.id {
            Some(v) => *v,
            None => {
                return None;
            },
        };
        let mut k: usize = 0;
        while k < n
            invariant
                self@.wf(),
                rows == self@.records,
                n == self.records@.len(),
                k <= n,
                rows.len() == n,
                record@.id == Some(idv),
                forall|t: int| 0 <= t < rows.len() ==> !same_natural_key(#[trigger] rows[t], record@),
                forall|t: int| 0 <= t < k ==> (#[trigger] rows[t]).id != record@.id,
            decreases n - k,
        {
            let hit = match &self.records[k].id {
                Some(v) => *v == idv,
                None => false,
            };
            if hit {
                let m = clone_opt_bytes(&self.records[k].metadata);
                proof {
                    assert(rows[k as int].id == record@.id);
                    let j = choose|j: int| 0 <= j < rows.len() && (#[trigger] rows[j]).id == record@.id;
                    if j != k as int {
                        assert(rows[j].spec_get_id() == rows[k as int].spec_get_id());
                    }
                }
                return Some(m);
            }
            k = k + 1;
        }
        None
    }

    /// The surrogate id that `record` resolves to: the id of the first row it
    /// matches, or 0 when it matches none.
    pub fn get_record_id(&self, record: &Record) -> (r: ChatRecordResult<i32>)
        requires
            self@.wf(),
        ensures
            r == Ok::<i32, ChatRecordError>(first_match_id(self@.records, record@)),
    {
        let ghost rows = self@.records;
        let n = self.records.len();
        let mut i: usize = 0;
        proof {
            assert(rows.skip(0) =~= rows);
        }
        while i < n
            invariant
                self@.wf(),
                rows == self@.records,
                n == self.records@.len(),
                rows.len() == n,
                i <= n,
                first_match_id(rows, record@) == first_match_id(rows.skip(i as int), record@),
            decreases n - i,
        {
            proof {
                assert(rows.skip(i as int)[0] == rows[i as int]);
                assert(rows.skip(i as int).drop_first() =~= rows.skip(i + 1));
                assert((self.records@[i as int])@ == rows[i as int]);
            }
            if row_matches(&self.records[i], record) {
                let id = self.records[i].get_id();
                return Ok(id);
            }
            i = i + 1;
        }
        proof {
            assert(rows.skip(n as int).len() == 0);
        }
        Ok(0)
    }

    /// Overwrites every row that `record` matches: sender_name and content
    /// from `record`, metadata from `merged`; reports how many rows were hit.
    fn update_record_with(&mut self, record: &Record, merged: Option<Vec<u8>>) -> (r: usize)
        requires
            old(self)@.wf(),
        ensures
            final(self)@.wf(),
            final(self)@ == (StoreView {
                records: apply_update(old(self)@.records, record@, view_opt_bytes(merged)),
                ..old(self)@
            }),
            r == count_matching(old(self)@.records, record@),
    {
        let ghost m = view_opt_bytes(merged);
        let ghost rows0 = self@.records;
        let n = self.records.len();
        let mut count: usize = 0;
        let mut i: usize = 0;
        while i < n
            invariant
                n == self.records@.len(),
                self@.records.len() == n,
                i <= n,
                count <= i,
                rows0.len() == n,
                rows0 == old(self)@.records,
                old(self)@.wf(),
                m == view_opt_bytes(merged),
                self@.blobs == old(self)@.blobs,
                self@.attachments == old(self)@.attachments,
                self@.next_record_id == old(self)@.next_record_id,
                self@.next_attach_id == old(self)@.next_attach_id,
                count == count_matching(rows0.take(i as int), record@),
                forall|k: int|
                    0 <= k < i ==> #[trigger] self@.records[k] == (if record_matches(
                        rows0[k],
                        record@,
                    ) {
                        updated_row(rows0[k], record@, m)
                    } else {
                        rows0[k]
                    }),
                forall|k: int| i <= k < n ==> #[trigger] self@.records[k] == rows0[k],
            decreases n - i,
        {
            proof {
                assert(rows0.take(i + 1).drop_last() =~= rows0.take(i as int));
                assert(rows0.take(i + 1).last() == rows0[i as int]);
            }
            if row_matches(&self.records[i], record) {
                let mut row = self.records[i].clone();
                row.sender_name = record.sender_name.clone();
                row.content = record.content.clone();
                row.metadata = clone_opt_bytes(&merged);
                proof {
                    assert((self.records@[i as int])@ == self@.records[i as int]);
                    assert(self@.records[i as int] == rows0[i as int]);
                    assert(record_matches(rows0[i as int], record@));
                    assert(row@ == updated_row(rows0[i as int], record@, m));
                }
                let ghost prev = self@.records;
                self.records.set(i, row);
                proof {
                    assert(forall|k: int|
                        0 <= k < n && k != i ==> #[trigger] self@.records[k] == prev[k]);
                    assert(self@.records[i as int] == updated_row(rows0[i as int], record@, m));
                    assert(count + 1 == count_matching(rows0.take(i + 1), record@));
                }
                count = count + 1;
            } else {
                proof {
                    assert((self.records@[i as int])@ == self@.records[i as int]);
                    assert(self@.records[i as int] == rows0[i as int]);
                    assert(!record_matches(rows0[i as int], record@));
                    assert(count == count_matching(rows0.take(i + 1), record@));
                }
            }
            i = i + 1;
        }
        proof {
            assert(rows0.take(n as int) =~= rows0);
            assert(self@.records =~= apply_update(rows0, record@, m));
            let rs = self@.records;
            assert forall|k: int| 0 <= k < rs.len() implies (#[trigger] rs[k]).id == rows0[k].id
                && rs[k].chat_type == rows0[k].chat_type && rs[k].owner_id == rows0[k].owner_id
                && rs[k].group_id == rows0[k].group_id && rs[k].sender_id == rows0[k].sender_id
                && rs[k].timestamp == rows0[k].timestamp by {}
            assert forall|i2: int, j2: int| 0 <= i2 < j2 < rs.len() implies !same_natural_key(
                #[trigger] rs[i2],
                #[trigger] rs[j2],
            ) by {
                assert(!same_natural_key(rows0[i2], rows0[j2]));
            }
            assert(self@ == (StoreView {
                records: apply_update(old(self)@.records, record@, view_opt_bytes(merged)),
                ..old(self)@
            }));
        }
        count
    }

    /// Inserts `record` as a fresh row, assigning or adopting its surrogate
    /// id as [`spec_insert_record`] says. The caller has established that no
    /// row matches the record's natural key or supplied id.
    fn insert_record(&mut self, record: &Record) -> (r: ChatRecordResult<usize>)
        requires
            old(self)@.wf(),
            forall|k: int|
                0 <= k < old(self)@.records.len() ==> !same_natural_key(
                    #[trigger] old(self)@.records[k],
                    record@,
                ),
            record@.id is Some ==> forall|k: int|
                0 <= k < old(self)@.records.len() ==> (#[trigger] old(self)@.records[k]).id
                    != record@.id,
        ensures
            final(self)@.wf(),
            (final(self)@, r) == spec_insert_record(old(self)@, record@),
    {
        let ghost pre = self@;
        match record.id {
            None => {
                if self.next_record_id == i32::MAX {
                    Err(ChatRecordError::Storage)
                } else {
                    let mut row = record.clone();
                    row.id = Some(self.next_record_id);
                    proof {
                        assert(row@ == assigned_row(record@, pre.next_record_id));
                    }
                    self.records.push(row);
                    self.next_record_id = self.next_record_id + 1;
                    proof {
                        assert(self@.records =~= pre.records.push(
                            assigned_row(record@, pre.next_record_id),
                        ));
                        assert(self@ == spec_insert_record(pre, record@).0);
                        lemma_insert_wf(pre, record@, self@);
                    }
                    Ok(1)
                }
            },
            Some(i) => {
                if i <= 0 || i == i32::MAX {
                    Err(ChatRecordError::Storage)
                } else {
                    self.records.push(record.clone());
                    if i >= self.next_record_id {
                        self.next_record_id = i + 1;
                    }
                    proof {
                        assert(self@.records =~= pre.records.push(record@));
                        assert(self@ == spec_insert_record(pre, record@).0);
                        lemma_insert_wf(pre, record@, self@);
                    }
                    Ok(1)
                }
            },
        }
    }

    /// The upsert of the record table, as the spec functions above describe:
    /// a conflicting record overwrites what it matches, with the metadata
    /// resolved through the merge policy; a fresh record is inserted. The
    /// result reports whether exactly one row was written.
    pub fn insert_or_update_record<F: Fn(Vec<u8>, Vec<u8>) -> Option<Vec<u8>>>(
        &mut self,
        record: &Record,
        merger: F,
    ) -> (r: ChatRecordResult<bool>)
        requires
            old(self)@.wf(),
            forall|a: Vec<u8>, b: Vec<u8>| #[trigger] call_requires(merger, (a, b)),
        ensures
            final(self)@.wf(),
            final(self)@.blobs == old(self)@.blobs,
            final(self)@.attachments == old(self)@.attachments,
            final(self)@.next_attach_id == old(self)@.next_attach_id,
            exists|mo: Option<Seq<u8>>|
                {
                    &&& #[trigger] merge_resolved_ok(
                        merger,
                        probe_metadata(old(self)@.records, record@),
                        record@.metadata,
                        mo,
                    )
                    &&& (final(self)@, r) == spec_upsert_record(old(self)@, record@, mo)
                },
    {
        let ghost pre = self@;
        match self.check_record(record) {
            Some(old_meta) => {
                let ghost old_meta_v = view_opt_bytes(old_meta);
                let merged: Option<Vec<u8>> = match &record.metadata {
                    Some(m2) => match old_meta {
                        Some(m1) => merger(m1, m2.clone()),
                        None => Some(m2.clone()),
                    },
                    None => old_meta,
                };
                let ghost mo = view_opt_bytes(merged);
                let count = self.update_record_with(record, merged);
                proof {
                    assert(merge_resolved_ok(
                        merger,
                        probe_metadata(pre.records, record@),
                        record@.metadata,
                        mo,
                    ));
                    assert((final(self)@, Ok::<bool, ChatRecordError>(count == 1))
                        == spec_upsert_record(pre, record@, mo));
                }
                Ok(count == 1)
            },
            None => {
                let r = match self.insert_record(record) {
                    Ok(n) => Ok(n == 1),
                    Err(e) => Err(e),
                };
                proof {
                    let mo = record@.metadata;
                    assert(merge_resolved_ok(
                        merger,
                        probe_metadata(pre.records, record@),
                        record@.metadata,
                        mo,
                    ));
                    assert((final(self)@, r) == spec_upsert_record(pre, record@, mo));
                }
                r
            },
        }
    }

    /// Removes the row with this surrogate id, reporting how many rows went
    /// away (0 or 1). Attachments are not touched here: the cascade is the
    /// caller's step, made with the resolved id.
    pub fn remove_record_by_id(&mut self, id: i32) -> (r: ChatRecordResult<usize>)
        requires
            old(self)@.wf(),
        ensures
            final(self)@.wf(),
            final(self)@.blobs == old(self)@.blobs,
            final(self)@.attachments == old(self)@.attachments,
            final(self)@.next_record_id == old(self)@.next_record_id,
            final(self)@.next_attach_id == old(self)@.next_attach_id,
            final(self)@.records == remove_record_id_rows(old(self)@.records, id),
            !has_record_id(old(self)@.records, id) ==> final(self)@ == old(self)@ && r == Ok::<
                usize,
                ChatRecordError,
            >(0),
            has_record_id(old(self)@.records, id) ==> r == Ok::<usize, ChatRecordError>(1),
    {
        let n = self.records.len();
        let mut i: usize = 0;
        while i < n
            invariant
                old(self) == self,
                self@.wf(),
                n == self.records@.len(),
                self@.records.len() == n,
                i <= n,
                forall|k: int| 0 <= k < i ==> (#[trigger] self@.records[k]).id != Some(id),
            decreases n - i,
        {
            let hit = match &self.records[i].id {
                Some(v) => *v == id,
                None => false,
            };
            if hit {
                let ghost pre = self@;
                let ghost idx = i as int;
                assert(pre.records[idx].id == Some(id));
                self.records.remove(i);
                proof {
                    assert(self@.records =~= pre.records.remove(idx));
                    lemma_records_remove_wf(pre.records, idx, pre.next_record_id);
                    assert forall|j: int|
                        0 <= j < pre.records.len() && j != idx implies (
                    #[trigger] pre.records[j]).id != Some(id) by {
                        assert(pre.records[j].spec_get_id() != pre.records[idx].spec_get_id());
                    }
                    lemma_remove_record_id_hit(pre.records, id, idx);
                }
                return Ok(1);
            }
            i = i + 1;
        }
        proof {
            lemma_remove_record_id_none(self@.records, id);
        }
        Ok(0)
    }

    /// Removes every row that `record` matches — by supplied surrogate id or
    /// natural key — reporting how many rows went away.
    pub fn remove_record(&mut self, record: &Record) -> (r: ChatRecordResult<usize>)
        requires
            old(self)@.wf(),
        ensures
            final(self)@.wf(),
            final(self)@ == (StoreView {
                records: remove_matching_records(old(self)@.records, record@),
                ..old(self)@
            }),
            r matches Ok(c) && c == count_matching(old(self)@.records, record@),
    {
        let ghost rows0 = self@.records;
        let n = self.records.len();
        let mut kept: Vec<Record> = Vec::new();
        let mut removed: usize = 0;
        let mut i: usize = 0;
        while i < n
            invariant
                old(self) == self,
                self@.wf(),
                n == self.records@.len(),
                rows0 == self@.records,
                rows0.len() == n,
                i <= n,
                removed <= i,
                kept@.map_values(|x: Record| x@) == remove_matching_records(
                    rows0.take(i as int),
                    record@,
                ),
                removed == count_matching(rows0.take(i as int), record@),
            decreases n - i,
        {
            proof {
                assert(rows0.take(i + 1).drop_last() =~= rows0.take(i as int));
                assert(rows0.take(i + 1).last() == rows0[i as int]);
                assert((self.records@[i as int])@ == rows0[i as int]);
            }
            if row_matches(&self.records[i], record) {
                removed = removed + 1;
            } else {
                let ghost kv = kept@.map_values(|x: Record| x@);
                kept.push(self.records[i].clone());
                proof {
                    assert(kept@.map_values(|x: Record| x@) =~= kv.push(rows0[i as int]));
                }
            }
            i = i + 1;
        }
        proof {
            assert(rows0.take(n as int) =~= rows0);
        }
        self.records = kept;
        proof {
            lemma_remove_matching_records(rows0, record@, old(self)@.next_record_id);
        }
        Ok(removed)
    }

    /// Whether an attachment row with this `(record_id, name)` key is stored.
    fn check_attach(&self, attach: &Attachment) -> (r: bool)
        ensures
            r == has_attach_key(self@.attachments, attach@.record_id, attach@.name),
    {
        let n = self.attachments.len();
        let mut i: usize = 0;
        while i < n
            invariant
                n == self.attachments@.len(),
                self@.attachments.len() == n,
                i <= n,
                forall|k: int|
                    0 <= k < i ==> !attach_matches_key(
                        #[trigger] self@.attachments[k],
                        attach@.record_id,
                        attach@.name,
                    ),
            decreases n - i,
        {
            if self.attachments[i].record_id == attach.record_id && self.attachments[i].name
                == attach.name {
                assert(attach_matches_key(
                    self@.attachments[i as int],
                    attach@.record_id,
                    attach@.name,
                ));
                return true;
            }
            proof {
                assert((self.attachments@[i as int])@ == self@.attachments[i as int]);
            }
            i = i + 1;
        }
        false
    }

    /// Re-points every row with the key `(record_id, name)` at the new hash,
    /// reporting how many rows were hit.
    fn update_attach(&mut self, attach: &Attachment) -> (r: usize)
        requires
            old(self)@.wf(),
        ensures
            final(self)@.wf(),
            final(self)@ == (StoreView {
                attachments: apply_attach_update(
                    old(self)@.attachments,
                    attach@.record_id,
                    attach@.name,
                    attach@.hash,
                ),
                ..old(self)@
            }),
            r == count_attach_key(old(self)@.attachments, attach@.record_id, attach@.name),
    {
        let ghost rid = attach@.record_id;
        let ghost nm = attach@.name;
        let ghost rows0 = self@.attachments;
        let n = self.attachments.len();
        let mut count: usize = 0;
        let mut i: usize = 0;
        while i < n
            invariant
                n == self.attachments@.len(),
                self@.attachments.len() == n,
                i <= n,
                count <= i,
                rows0.len() == n,
                rows0 == old(self)@.attachments,
                old(self)@.wf(),
                rid == attach@.record_id,
                nm == attach@.name,
                self@.records == old(self)@.records,
                self@.blobs == old(self)@.blobs,
                self@.next_record_id == old(self)@.next_record_id,
                self@.next_attach_id == old(self)@.next_attach_id,
                count == count_attach_key(rows0.take(i as int), rid, nm),
                forall|k: int|
                    0 <= k < i ==> #[trigger] self@.attachments[k] == (if attach_matches_key(
                        rows0[k],
                        rid,
                        nm,
                    ) {
                        AttachmentView { hash: attach@.hash, ..rows0[k] }
                    } else {
                        rows0[k]
                    }),
                forall|k: int| i <= k < n ==> #[trigger] self@.attachments[k] == rows0[k],
            decreases n - i,
        {
            proof {
                assert(rows0.take(i + 1).drop_last() =~= rows0.take(i as int));
                assert(rows0.take(i + 1).last() == rows0[i as int]);
                assert((self.attachments@[i as int])@ == self@.attachments[i as int]);
            }
            if self.attachments[i].record_id == attach.record_id && self.attachments[i].name
                == attach.name {
                let mut row = self.attachments[i].clone();
                row.hash = attach.hash;
                proof {
                    assert(attach_matches_key(rows0[i as int], rid, nm));
                    assert(row@ == (AttachmentView { hash: attach@.hash, ..rows0[i as int] }));
                }
                let ghost prev = self@.attachments;
                self.attachments.set(i, row);
                proof {
                    assert(forall|k: int|
                        0 <= k < n && k != i ==> #[trigger] self@.attachments[k] == prev[k]);
                }
                count = count + 1;
            } else {
                proof {
                    assert(!attach_matches_key(rows0[i as int], rid, nm));
                }
            }
            i = i + 1;
        }
        proof {
            assert(rows0.take(n as int) =~= rows0);
            assert(self@.attachments =~= apply_attach_update(rows0, rid, nm, attach@.hash));
            let rs = self@.attachments;
            assert forall|k: int| 0 <= k < rs.len() implies (#[trigger] rs[k]).id == rows0[k].id
                && rs[k].record_id == rows0[k].record_id && rs[k].name == rows0[k].name by {}
            assert(self@ == (StoreView {
                attachments: apply_attach_update(
                    old(self)@.attachments,
                    attach@.record_id,
                    attach@.name,
                    attach@.hash,
                ),
                ..old(self)@
            }));
        }
        count
    }

    /// Appends a fresh attachment row under the next surrogate id. The
    /// caller has established that the `(record_id, name)` key is new.
    fn insert_attach(&mut self, attach: &Attachment) -> (r: ChatRecordResult<usize>)
        requires
            old(self)@.wf(),
            attach@.id is None,
            !has_attach_key(old(self)@.attachments, attach@.record_id, attach@.name),
        ensures
            final(self)@.wf(),
            old(self)@.next_attach_id == i32::MAX ==> final(self)@ == old(self)@ && r == Err::<
                usize,
                ChatRecordError,
            >(ChatRecordError::Storage),
            old(self)@.next_attach_id != i32::MAX ==> r == Ok::<usize, ChatRecordError>(1)
                && final(self)@ == (StoreView {
                attachments: old(self)@.attachments.push(
                    AttachmentView {
                        id: Some(old(self)@.next_attach_id),
                        record_id: attach@.record_id,
                        name: attach@.name,
                        hash: attach@.hash,
                    },
                ),
                next_attach_id: (old(self)@.next_attach_id + 1) as i32,
                ..old(self)@
            }),
    {
        if self.next_attach_id == i32::MAX {
            return Err(ChatRecordError::Storage);
        }
        let ghost pre = self@;
        let mut row = attach.clone();
        row.id = Some(self.next_attach_id);
        self.attachments.push(row);
        self.next_attach_id = self.next_attach_id + 1;
        proof {
            let nv = AttachmentView {
                id: Some(pre.next_attach_id),
                record_id: attach@.record_id,
                name: attach@.name,
                hash: attach@.hash,
            };
            assert(self@.attachments =~= pre.attachments.push(nv));
            let rs = self@.attachments;
            let newi = pre.attachments.len() as int;
            assert(forall|k: int| 0 <= k < newi ==> #[trigger] rs[k] == pre.attachments[k]);
            assert forall|i2: int, j2: int| 0 <= i2 < j2 < rs.len() implies (
            #[trigger] rs[i2]).spec_get_id() != (#[trigger] rs[j2]).spec_get_id() && !(
            rs[i2].record_id == rs[j2].record_id && rs[i2].name == rs[j2].name) by {
                if j2 == newi {
                    assert(rs[i2] == pre.attachments[i2]);
                    assert(!attach_matches_key(pre.attachments[i2], attach@.record_id, attach@.name));
                }
            }
        }
        Ok(1)
    }

    /// The attachment upsert: a stored `(record_id, name)` key is re-pointed
    /// at the row's hash, a fresh key becomes a new row.
    pub fn insert_or_update_attach_inner(&mut self, attach: &Attachment) -> (r: ChatRecordResult<
        bool,
    >)
        requires
            old(self)@.wf(),
            attach@.id is None,
        ensures
            final(self)@.wf(),
            (final(self)@, r) == spec_upsert_attach(
                old(self)@,
                attach@.record_id,
                attach@.name,
                attach@.hash,
            ),
    {
        if self.check_attach(attach) {
            let count = self.update_attach(attach);
            Ok(count == 1)
        } else {
            match self.insert_attach(attach) {
                Ok(n) => Ok(n == 1),
                Err(e) => Err(e),
            }
        }
    }

    /// Stores `data` in the blob table under its content hash — a no-op
    /// when identical content is already stored — and points the
    /// `(record_id, name)` link at that hash.
    pub fn insert_or_update_attach(&mut self, data: Vec<u8>, name: String, record_id: i32) -> (r:
        ChatRecordResult<bool>)
        requires
            old(self)@.wf(),
        ensures
            final(self)@.wf(),
            (final(self)@, r) == spec_insert_or_update_attach(old(self)@, data@, name@, record_id),
    {
        let ghost data_v = data@;
        let blob = Blob::new(data);
        let inserted = match self.insert_blob(&blob) {
            Ok(b) => b,
            Err(e) => {
                return Err(e);
            },
        };
        proof {
            assert(blob@ == (BlobView { hash: crate::hashing::content_hash_of(data_v), blob: data_v }));
        }
        if inserted {
            let attach = Attachment::new(blob.hash, name, &crate::record_type::RecordType::Id(record_id));
            self.insert_or_update_attach_inner(&attach)
        } else {
            Ok(false)
        }
    }

    /// The attachment rows of one record, in table order.
    pub fn get_attachs(&self, record_id: i32) -> (r: Vec<Attachment>)
        ensures
            r@.map_values(|x: Attachment| x@) == attachments_of(self@.attachments, record_id),
    {
        let ghost rows0 = self@.attachments;
        let n = self.attachments.len();
        let mut out: Vec<Attachment> = Vec::new();
        let mut i: usize = 0;
        while i < n
            invariant
                n == self.attachments@.len(),
                rows0 == self@.attachments,
                rows0.len() == n,
                i <= n,
                out@.map_values(|x: Attachment| x@) == attachments_of(rows0.take(i as int), record_id),
            decreases n - i,
        {
            proof {
                assert(rows0.take(i + 1).drop_last() =~= rows0.take(i as int));
                assert(rows0.take(i + 1).last() == rows0[i as int]);
                assert((self.attachments@[i as int])@ == rows0[i as int]);
            }
            if self.attachments[i].record_id == record_id {
                let ghost ov = out@.map_values(|x: Attachment| x@);
                out.push(self.attachments[i].clone());
                proof {
                    assert(out@.map_values(|x: Attachment| x@) =~= ov.push(rows0[i as int]));
                }
            }
            i = i + 1;
        }
        proof {
            assert(rows0.take(n as int) =~= rows0);
        }
        out
    }

    /// Removes every row that the attachment value matches — by supplied
    /// surrogate id or `(record_id, name)` key — reporting how many rows
    /// went away.
    pub fn remove_attach(&mut self, attach: &Attachment) -> (r: ChatRecordResult<usize>)
        requires
            old(self)@.wf(),
        ensures
            final(self)@.wf(),
            final(self)@ == (StoreView {
                attachments: remove_matching_attachments(old(self)@.attachments, attach@),
                ..old(self)@
            }),
            r matches Ok(c) && c == count_matching_attachments(old(self)@.attachments, attach@),
    {
        let ghost rows0 = self@.attachments;
        let n = self.attachments.len();
        let mut kept: Vec<Attachment> = Vec::new();
        let mut removed: usize = 0;
        let mut i: usize = 0;
        while i < n
            invariant
                old(self) == self,
                self@.wf(),
                n == self.attachments@.len(),
                rows0 == self@.attachments,
                rows0.len() == n,
                i <= n,
                removed <= i,
                kept@.map_values(|x: Attachment| x@) == remove_matching_attachments(
                    rows0.take(i as int),
                    attach@,
                ),
                removed == count_matching_attachments(rows0.take(i as int), attach@),
            decreases n - i,
        {
            proof {
                assert(rows0.take(i + 1).drop_last() =~= rows0.take(i as int));
                assert(rows0.take(i + 1).last() == rows0[i as int]);
                assert((self.attachments@[i as int])@ == rows0[i as int]);
            }
            let row = &self.attachments[i];
            let id_hit = match (&attach.id, &row.id) {
                (Some(a), Some(b)) => *a == *b,
                _ => false,
            };
            if id_hit || (row.record_id == attach.record_id && row.name == attach.name) {
                removed = removed + 1;
            } else {
                let ghost kv = kept@.map_values(|x: Attachment| x@);
                kept.push(self.attachments[i].clone());
                proof {
                    assert(kept@.map_values(|x: Attachment| x@) =~= kv.push(rows0[i as int]));
                }
            }
            i = i + 1;
        }
        proof {
            assert(rows0.take(n as int) =~= rows0);
        }
        self.attachments = kept;
        proof {
            lemma_remove_matching_attachments(rows0, attach@, old(self)@.next_attach_id);
        }
        Ok(removed)
    }

    /// Removes every attachment of one record. In this store each
    /// single-row deletion succeeds, so the composite always reports
    /// success; afterwards the record has no attachments, and blob rows are
    /// untouched.
    pub fn remove_attachs(&mut self, record_id: i32) -> (r: ChatRecordResult<bool>)
        requires
            old(self)@.wf(),
        ensures
            final(self)@.wf(),
            final(self)@ == (StoreView {
                attachments: remove_record_attachments(old(self)@.attachments, record_id),
                ..old(self)@
            }),
            r == Ok::<bool, ChatRecordError>(true),
    {
        let ghost rows0 = self@.attachments;
        let n = self.attachments.len();
        let mut kept: Vec<Attachment> = Vec::new();
        let mut i: usize = 0;
        while i < n
            invariant
                old(self) == self,
                self@.wf(),
                n == self.attachments@.len(),
                rows0 == self@.attachments,
                rows0.len() == n,
                i <= n,
                kept@.map_values(|x: Attachment| x@) == remove_record_attachments(
                    rows0.take(i as int),
                    record_id,
                ),
            decreases n - i,
        {
            proof {
                assert(rows0.take(i + 1).drop_last() =~= rows0.take(i as int));
                assert(rows0.take(i + 1).last() == rows0[i as int]);
                assert((self.attachments@[i as int])@ == rows0[i as int]);
            }
            if self.attachments[i].record_id != record_id {
                let ghost kv = kept@.map_values(|x: Attachment| x@);
                kept.push(self.attachments[i].clone());
                proof {
                    assert(kept@.map_values(|x: Attachment| x@) =~= kv.push(rows0[i as int]));
                }
            }
            i = i + 1;
        }
        proof {
            assert(rows0.take(n as int) =~= rows0);
        }
        self.attachments = kept;
        proof {
            lemma_remove_record_attachments(rows0, record_id, old(self)@.next_attach_id);
        }
        Ok(true)
    }

    /// Every record row, in table order.
    pub fn record_all(&self) -> (r: Vec<Record>)
        ensures
            r@.map_values(|x: Record| x@) == self@.records,
    {
        let n = self.records.len();
        let mut r: Vec<Record> = Vec::new();
        let mut i: usize = 0;
        while i < n
            invariant
                n == self.records@.len(),
                self@.records.len() == n,
                i <= n,
                r@.len() == i,
                forall|k: int| 0 <= k < i ==> (#[trigger] r@[k])@ == self@.records[k],
            decreases n - i,
        {
            r.push(self.records[i].clone());
            i = i + 1;
        }
        proof {
            assert(r@.map_values(|x: Record| x@) =~= self@.records);
        }
        r
    }
}

} // verus!
