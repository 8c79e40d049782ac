use vstd::prelude::*;

use crate::clock::now_millis;
use crate::error::ChatRecordError;
use crate::error::ChatRecordResult;
use crate::index::ContentIndexer;
use crate::index::DocView;
use crate::index::gen_docs;
use crate::index::matching_ids;
use crate::index::sorted_by_recency;
use crate::pattern::like_match;
use crate::pattern::spec_like;
use crate::query::Query;
use crate::query::QueryView;
use crate::query::pattern_or_default;
use crate::record::Record;
use crate::record::RecordView;
use crate::record_type::Attachments;
use crate::record_type::RecordType;
use crate::seq_util::page;
use crate::store::StoreView;
use crate::store::Store;
use crate::store::count_matching;
use crate::store::first_match_id;
use crate::store::has_record_id;
use crate::store::merge_resolved_ok;
use crate::store::probe_metadata;
use crate::store::remove_matching_records;
use crate::store::remove_record_attachments;
use crate::store::remove_record_id_rows;
use crate::store::spec_insert_or_update_attach;
use crate::store::spec_upsert_record;

verus! {

/// The view of a list of named attachment payloads.
pub open spec fn attaches_view(a: Seq<(String, Vec<u8>)>) -> Seq<(Seq<char>, Seq<u8>)> {
    a.map_values(|p: (String, Vec<u8>)| (p.0@, p.1@))
}

/// What attaching a whole list of named payloads to one record does: each
/// entry is stored in turn — blob first, link second — and the successful
/// steps are counted; the first storage error stops the walk with the steps
/// so far applied, partial state left as it is.
pub open spec fn apply_attaches(
    s: StoreView,
    rid: i32,
    attaches: Seq<(Seq<char>, Seq<u8>)>,
) -> (StoreView, ChatRecordResult<nat>)
    decreases attaches.len(),
{
    if attaches.len() == 0 {
        (s, Ok(0))
    } else {
        let front = apply_attaches(s, rid, attaches.drop_last());
        match front.1 {
            Ok(cnt) => {
                let step = spec_insert_or_update_attach(
                    front.0,
                    attaches.last().1,
                    attaches.last().0,
                    rid,
                );
                match step.1 {
                    Ok(_) => (step.0, Ok((cnt + 1) as nat)),
                    Err(e) => (step.0, Err(e)),
                }
            },
            Err(e) => (front.0, Err(e)),
        }
    }
}

/// What a whole write — record upsert plus attachment walk — does, given
/// the resolved metadata `mo` for the conflict case. Success requires the
/// record write to hit exactly one row, the surrogate id to resolve, and
/// every attachment step to succeed.
pub open spec fn spec_auto_insert(
    s: StoreView,
    r: RecordView,
    attaches: Seq<(Seq<char>, Seq<u8>)>,
    mo: Option<Seq<u8>>,
) -> (StoreView, ChatRecordResult<bool>) {
    let up = spec_upsert_record(s, r, mo);
    match up.1 {
        Err(e) => (up.0, Err(e)),
        Ok(false) => (up.0, Ok(false)),
        Ok(true) => {
            let rid = first_match_id(up.0.records, r);
            if rid > 0 {
                let walked = apply_attaches(up.0, rid, attaches);
                match walked.1 {
                    Ok(cnt) => (walked.0, Ok(cnt == attaches.len())),
                    Err(e) => (walked.0, Err(e)),
                }
            } else {
                (up.0, Ok(0 == attaches.len()))
            }
        },
    }
}

/// A storage error inside the attachment walk stops it there: the whole
/// walk's outcome is the failing step's state and error.
proof fn lemma_apply_attaches_err(
    s: StoreView,
    rid: i32,
    av: Seq<(Seq<char>, Seq<u8>)>,
    j: int,
    sj: StoreView,
    s2: StoreView,
    e: ChatRecordError,
)
    requires
        0 <= j < av.len(),
        apply_attaches(s, rid, av.take(j)) == (sj, Ok::<nat, ChatRecordError>(j as nat)),
        spec_insert_or_update_attach(sj, av[j].1, av[j].0, rid) == (s2, Err::<bool, ChatRecordError>(e)),
    ensures
        apply_attaches(s, rid, av) == (s2, Err::<nat, ChatRecordError>(e)),
    decreases av.len(),
{
    let front = av.drop_last();
    assert(forall|t: int| 0 <= t < front.len() ==> #[trigger] front[t] == av[t]);
    if j == av.len() - 1 {
        assert(av.take(j) =~= front);
    } else {
        assert(front.take(j) =~= av.take(j));
        lemma_apply_attaches_err(s, rid, front, j, sj, s2, e);
    }
}

/// The metadata that the default merge policy resolves to: the new value
/// wins whenever the incoming record carries one.
pub open spec fn default_merged(
    probed: Option<Option<Seq<u8>>>,
    new_meta: Option<Seq<u8>>,
) -> Option<Seq<u8>> {
    match probed {
        None => new_meta,
        Some(old_meta) => match new_meta {
            Some(m2) => Some(m2),
            None => old_meta,
        },
    }
}

/// What removing a record value does: every row it matches — by supplied id
/// or natural key — is deleted; when exactly one row went away, the
/// attachments of the resolved id are deleted too, and the call succeeds.
pub open spec fn spec_remove_by_record(s: StoreView, r: RecordView) -> (
    StoreView,
    ChatRecordResult<bool>,
) {
    let rid = first_match_id(s.records, r);
    let s1 = StoreView { records: remove_matching_records(s.records, r), ..s };
    if count_matching(s.records, r) == 1 {
        (
            StoreView { attachments: remove_record_attachments(s1.attachments, rid), ..s1 },
            Ok(true),
        )
    } else {
        (s1, Ok(false))
    }
}

/// What removing by a record variant does: a bare id deletes the row with
/// that id and cascades to its attachments; a record value goes through
/// [`spec_remove_by_record`]. Blobs are never touched.
pub open spec fn spec_remove(s: StoreView, rt: RecordType) -> (StoreView, ChatRecordResult<bool>) {
    match rt {
        RecordType::Id(i) => if has_record_id(s.records, i) {
            (
                StoreView {
                    records: remove_record_id_rows(s.records, i),
                    attachments: remove_record_attachments(s.attachments, i),
                    ..s
                },
                Ok(true),
            )
        } else {
            (s, Ok(false))
        },
        RecordType::Record(rec) => spec_remove_by_record(s, rec@),
        RecordType::RecordWithAttaches { record: rec, .. } => spec_remove_by_record(s, rec@),
    }
}

/// The surrogate id that a removal resolves: the bare id itself, or the id
/// of the first row the record value matches.
pub open spec fn spec_removed_id(s: StoreView, rt: RecordType) -> i32 {
    match rt {
        RecordType::Id(i) => i,
        RecordType::Record(rec) => first_match_id(s.records, rec@),
        RecordType::RecordWithAttaches { record: rec, .. } => first_match_id(s.records, rec@),
    }
}

/// Removal cascade: a successful removal — by id or by record value —
/// deletes the record's attachments with it, so a subsequent attachment
/// lookup for the resolved id finds nothing, and every blob row stays
/// untouched.
pub proof fn lemma_removal_cascade(s: StoreView, rt: RecordType)
    requires
        s.wf(),
        spec_remove(s, rt).1 == Ok::<bool, ChatRecordError>(true),
    ensures
        spec_remove(s, rt).0.blobs == s.blobs,
        crate::store::attachments_of(spec_remove(s, rt).0.attachments, spec_removed_id(s, rt))
            == Seq::<crate::attach::AttachmentView>::empty(),
{
    let rid = spec_removed_id(s, rt);
    crate::store::lemma_remove_record_attachments(s.attachments, rid, s.next_attach_id);
    crate::store::lemma_attachments_of_none(
        crate::store::remove_record_attachments(s.attachments, rid),
        rid,
    );
}

/// With the default policy the incoming metadata wins exactly: a
/// conflicting upsert where both sides carry metadata resolves to the new
/// value, the old one is discarded.
pub proof fn lemma_default_policy_takes_new(old_meta: Seq<u8>, new_meta: Seq<u8>)
    ensures
        default_merged(Some(Some(old_meta)), Some(new_meta)) == Some(new_meta),
{
}

/// Pagination determinism for structured retrieval: adjacent pages of one
/// filtered row list concatenate to one page of the combined size — no
/// duplicates, no gaps, no reordering.
pub proof fn lemma_structured_pagination(
    rows: Seq<RecordView>,
    q: QueryView,
    after: i64,
    before: i64,
    offset: int,
    l1: int,
    l2: int,
)
    requires
        offset >= 0,
        l1 >= 0,
        l2 >= 0,
    ensures
        page(structured_filter(rows, q, after, before), offset, l1 + l2) == page(
            structured_filter(rows, q, after, before),
            offset,
            l1,
        ) + page(structured_filter(rows, q, after, before), offset + l1, l2),
{
    crate::seq_util::lemma_page_concat(structured_filter(rows, q, after, before), offset, l1, l2);
}

/// Whether a record's timestamp lies in the half-open window
/// `[after, before)`.
pub open spec fn window_ok(r: RecordView, after: i64, before: i64) -> bool {
    after <= r.timestamp && r.timestamp < before
}

/// Whether a record passes all five structured pattern filters of a query.
pub open spec fn patterns_ok(r: RecordView, q: QueryView) -> bool {
    &&& spec_like(pattern_or_default(q.chat_type), r.chat_type)
    &&& spec_like(pattern_or_default(q.owner_id), r.owner_id)
    &&& spec_like(pattern_or_default(q.group_id), r.group_id)
    &&& spec_like(pattern_or_default(q.sender_id), r.sender_id)
    &&& spec_like(pattern_or_default(q.sender_name), r.sender_name)
}

/// The rows that structured retrieval selects, in table order: those passing
/// every pattern filter and lying in the time window.
pub open spec fn structured_filter(
    rows: Seq<RecordView>,
    q: QueryView,
    after: i64,
    before: i64,
) -> Seq<RecordView>
    decreases rows.len(),
{
    if rows.len() == 0 {
        Seq::empty()
    } else {
        let rest = structured_filter(rows.drop_last(), q, after, before);
        if patterns_ok(rows.last(), q) && window_ok(rows.last(), after, before) {
            rest.push(rows.last())
        } else {
            rest
        }
    }
}

/// The records that a ranked id list loads, in ranked order: for each id in
/// turn, the row carrying it, kept when it lies in the time window.
pub open spec fn lookup_in_window(
    rows: Seq<RecordView>,
    ids: Seq<i32>,
    after: i64,
    before: i64,
) -> Seq<RecordView>
    decreases ids.len(),
{
    if ids.len() == 0 {
        Seq::empty()
    } else {
        let rest = lookup_in_window(rows, ids.drop_last(), after, before);
        let id = ids.last();
        if has_record_id(rows, id) {
            let k = choose|k: int| 0 <= k < rows.len() && (#[trigger] rows[k]).id == Some(id);
            if window_ok(rows[k], after, before) {
                rest.push(rows[k])
            } else {
                rest
            }
        } else {
            rest
        }
    }
}

/// The lower bound of a query's time window; defaults to 0.
pub open spec fn spec_after(q: QueryView) -> i64 {
    match q.after {
        Some(a) => a,
        None => 0,
    }
}

/// The upper bound of a query's time window; defaults to the time of the
/// call.
pub open spec fn spec_before(q: QueryView, now: i64) -> i64 {
    match q.before {
        Some(b) => b,
        None => now,
    }
}

/// What one read returns, given the store, the index contents and the time
/// of the call. With a keyword, the index yields a ranked, paginated id
/// list whose rows are loaded and bounded by the time window — the pattern
/// filters are not applied in this mode; an empty keyword is malformed.
/// Without one, the pattern filters and the window select rows in table
/// order, paginated.
pub open spec fn spec_query_results(
    s: StoreView,
    docs: Seq<DocView>,
    q: QueryView,
    now: i64,
) -> ChatRecordResult<Seq<RecordView>> {
    let after = spec_after(q);
    let before = spec_before(q, now);
    match q.keyword {
        Some(kw) => if kw.len() == 0 {
            Err(ChatRecordError::QueryParse)
        } else {
            let ids = page(
                matching_ids(docs, kw),
                q.spec_get_offset() as int,
                q.spec_get_limit() as int,
            );
            Ok(lookup_in_window(s.records, ids, after, before))
        },
        None => Ok(
            page(
                structured_filter(s.records, q, after, before),
                q.spec_get_offset() as int,
                q.spec_get_limit() as int,
            ),
        ),
    }
}

/// Loading a single-id list from a well-formed table yields the row that
/// carries the id, when its timestamp lies in the window.
proof fn lemma_lookup_one(rows: Seq<RecordView>, id: i32, u: int, after: i64, before: i64, next_id: i32)
    requires
        crate::store::records_wf(rows, next_id),
        0 <= u < rows.len(),
        rows[u].id == Some(id),
        window_ok(rows[u], after, before),
    ensures
        lookup_in_window(rows, seq![id], after, before) == seq![rows[u]],
{
    let ids = seq![id];
    assert(ids.drop_last() =~= Seq::<i32>::empty());
    assert(lookup_in_window(rows, ids.drop_last(), after, before) =~= Seq::<RecordView>::empty());
    assert(has_record_id(rows, id));
    assert forall|k: int| 0 <= k < rows.len() && (#[trigger] rows[k]).id == Some(id) implies k
        == u by {
        if k != u {
            assert(rows[k].spec_get_id() != rows[u].spec_get_id());
        }
    }
    assert(lookup_in_window(rows, ids, after, before) =~= seq![rows[u]]);
}

/// Search/store consistency round trip, unique half: right after a rebuild
/// of the index from the store's records, a keyword query from the first
/// page whose keyword occurs in exactly one record's content — a record
/// whose timestamp lies in the window — returns exactly that record.
pub proof fn lemma_round_trip_unique(s: StoreView, q: QueryView, now: i64, u: int)
    requires
        s.wf(),
        q.keyword is Some,
        pattern_or_default(q.keyword) =~= q.keyword->0,
        q.keyword->0.len() > 0,
        q.spec_get_offset() == 0,
        q.spec_get_limit() >= 1,
        0 <= u < s.records.len(),
        crate::text::contains_seq(s.records[u].content, q.keyword->0),
        forall|j: int|
            0 <= j < s.records.len() && j != u ==> !crate::text::contains_seq(
                (#[trigger] s.records[j]).content,
                q.keyword->0,
            ),
        window_ok(s.records[u], spec_after(q), spec_before(q, now)),
    ensures
        spec_query_results(s, gen_docs(Seq::empty(), s.records), q, now) == Ok::<
            Seq<RecordView>,
            ChatRecordError,
        >(seq![s.records[u]]),
{
    let kw = q.keyword->0;
    let docs = gen_docs(Seq::empty(), s.records);
    crate::index::lemma_search_unique(s.records, kw, u);
    let uid = s.records[u].spec_get_id();
    assert(matching_ids(docs, kw) == seq![uid]);
    crate::seq_util::lemma_page_all(seq![uid], q.spec_get_limit() as int);
    let ids = page(matching_ids(docs, kw), q.spec_get_offset() as int, q.spec_get_limit() as int);
    assert(ids == seq![uid]);
    let after = spec_after(q);
    let before = spec_before(q, now);
    assert(s.records[u].id == Some(uid));
    lemma_lookup_one(s.records, uid, u, after, before, s.next_record_id);
}

/// Search/store consistency round trip, empty half: right after a rebuild,
/// a keyword occurring in no record's content returns nothing.
pub proof fn lemma_round_trip_none(s: StoreView, q: QueryView, now: i64)
    requires
        s.wf(),
        q.keyword is Some,
        q.keyword->0.len() > 0,
        forall|j: int|
            0 <= j < s.records.len() ==> !crate::text::contains_seq(
                (#[trigger] s.records[j]).content,
                q.keyword->0,
            ),
    ensures
        spec_query_results(s, gen_docs(Seq::empty(), s.records), q, now) == Ok::<
            Seq<RecordView>,
            ChatRecordError,
        >(Seq::empty()),
{
    let kw = q.keyword->0;
    let docs = gen_docs(Seq::empty(), s.records);
    crate::index::lemma_search_none(s.records, kw);
    assert(matching_ids(docs, kw) == Seq::<i32>::empty());
    let ids = page(matching_ids(docs, kw), q.spec_get_offset() as int, q.spec_get_limit() as int);
    assert(ids =~= Seq::<i32>::empty());
    assert(lookup_in_window(s.records, ids, spec_after(q), spec_before(q, now)) =~= Seq::<
        RecordView,
    >::empty());
}

/// The mathematical value of a [`Recorder`]: the store's tables and the
/// index's documents.
pub ghost struct RecorderView {
    pub store: StoreView,
    pub docs: Seq<DocView>,
}

impl RecorderView {
    /// Well-formedness: the store's tables are well-formed and the index is
    /// ordered most-recent-first.
    pub open spec fn wf(self) -> bool {
        &&& self.store.wf()
        &&& sorted_by_recency(self.docs)
    }
}

/// The public entry point of the persistence layer: canonical record
/// storage with content-addressed attachments, and a derived full-text
/// index that is only rebuilt on an explicit refresh — a write is not
/// searchable until `refresh_index` runs.
pub struct Recorder {
    store: Store,
    indexer: ContentIndexer,
}

impl View for Recorder {
    type V = RecorderView;

    closed spec fn view(&self) -> RecorderView {
        RecorderView { store: self.store@, docs: self.indexer@ }
    }
}

/// Whether a record row carries the surrogate id `id`.
fn row_has_id(row: &Record, id: i32) -> (b: bool)
    ensures
        b == (row@.id == Some(id)),
{
    match &row.id {
        Some(v) => *v == id,
        None => false,
    }
}

/// One page of a filtered row list: skip `offset` rows, yield at most
/// `limit`.
fn page_records(full: &Vec<Record>, offset: i64, limit: i64) -> (r: Vec<Record>)
    requires
        offset >= 0,
        limit >= 0,
    ensures
        r@.map_values(|x: Record| x@) == page(
            full@.map_values(|x: Record| x@),
            offset as int,
            limit as int,
        ),
{
    let ghost s = full@.map_values(|x: Record| x@);
    let ghost o: int = offset as int;
    let ghost l: int = limit as int;
    let fl = full.len();
    let mut out: Vec<Record> = Vec::new();
    let mut skipped: i64 = 0;
    let mut taken: i64 = 0;
    let mut j: usize = 0;
    while j < fl && taken < limit
        invariant
            fl == s.len(),
            full@.map_values(|x: Record| x@) == s,
            j <= fl,
            0 <= o,
            0 <= l,
            offset == o,
            limit == l,
            skipped == if j < o {
                j as int
            } else {
                o
            },
            taken == out@.len(),
            taken <= l,
            out@.map_values(|x: Record| x@) == s.subrange(
                if o < j {
                    o
                } else {
                    j as int
                },
                if o + l < j {
                    o + l
                } else {
                    j as int
                },
            ),
        decreases fl - j,
    {
        if skipped < offset {
            skipped = skipped + 1;
        } else {
            let ghost ov = out@.map_values(|x: Record| x@);
            out.push(full[j].clone());
            proof {
                assert((full@[j as int])@ == s[j as int]);
                assert(out@.map_values(|x: Record| x@) =~= ov.push(s[j as int]));
                assert(out@.map_values(|x: Record| x@) =~= s.subrange(
                    if o < j + 1 {
                        o
                    } else {
                        j + 1
                    },
                    if o + l < j + 1 {
                        o + l
                    } else {
                        j + 1
                    },
                ));
            }
            taken = taken + 1;
        }
        j = j + 1;
    }
    proof {
        assert(out@.map_values(|x: Record| x@) =~= page(s, o, l));
    }
    out
}

/// The default metadata merge policy: the new value wins unconditionally.
pub fn default_metadata_merger(old_meta: Vec<u8>, new_meta: Vec<u8>) -> (r: Option<Vec<u8>>)
    ensures
        r == Some(new_meta),
{
    let _ = old_meta;
    Some(new_meta)
}

/// Under the default policy the resolved metadata is pinned: whatever the
/// merge step admitted equals [`default_merged`] of what the probe found
/// and what the record carries.
proof fn lemma_default_collapse(
    s0: StoreView,
    r: RecordView,
    av: Seq<(Seq<char>, Seq<u8>)>,
    fin: StoreView,
    rr: ChatRecordResult<bool>,
)
    requires
        exists|mo: Option<Seq<u8>>|
            #[trigger] merge_resolved_ok(
                default_metadata_merger,
                probe_metadata(s0.records, r),
                r.metadata,
                mo,
            ) && (fin, rr) == spec_auto_insert(s0, r, av, mo),
    ensures
        (fin, rr) == spec_auto_insert(
            s0,
            r,
            av,
            default_merged(probe_metadata(s0.records, r), r.metadata),
        ),
{
    let probed = probe_metadata(s0.records, r);
    let dm = default_merged(probed, r.metadata);
    let mo = choose|mo: Option<Seq<u8>>|
        #[trigger] merge_resolved_ok(default_metadata_merger, probed, r.metadata, mo) && (fin, rr)
            == spec_auto_insert(s0, r, av, mo);
    match probed {
        None => {
            assert(spec_upsert_record(s0, r, mo) == spec_upsert_record(s0, r, dm));
            assert(spec_auto_insert(s0, r, av, mo) == spec_auto_insert(s0, r, av, dm));
        },
        Some(old_meta) => {
            match r.metadata {
                Some(m2) => {
                    match old_meta {
                        Some(m1) => {
                            let (a, b, out) = choose|
                                a: Vec<u8>,
                                b: Vec<u8>,
                                out: Option<Vec<u8>>,
                            |
                                a@ == m1 && b@ == m2 && #[trigger] call_ensures(
                                    default_metadata_merger,
                                    (a, b),
                                    out,
                                ) && mo == crate::store::view_opt_bytes(out);
                            assert(out == Some(b));
                            assert(mo == dm);
                        },
                        None => {
                            assert(mo == dm);
                        },
                    }
                },
                None => {
                    assert(mo == dm);
                },
            }
        },
    }
}

impl Recorder {
    /// An empty recorder: no records, no blobs, no attachments, an empty
    /// index.
    pub fn new() -> (r: Recorder)
        ensures
            r@.wf(),
            r@.store.records == Seq::<RecordView>::empty(),
            r@.store.blobs == Seq::<crate::blob::BlobView>::empty(),
            r@.store.attachments == Seq::<crate::attach::AttachmentView>::empty(),
            r@.docs == Seq::<DocView>::empty(),
    {
        Recorder { store: Store::new(), indexer: ContentIndexer::new() }
    }

    /// Clears and rebuilds the index from the store's full current contents.
    /// Intended after bulk writes or on a schedule — never run automatically
    /// on every write.
    pub fn refresh_index(&mut self)
        requires
            old(self)@.wf(),
        ensures
            final(self)@.wf(),
            final(self)@.store == old(self)@.store,
            final(self)@.docs == gen_docs(Seq::empty(), old(self)@.store.records),
    {
        self.indexer.cleanup_index();
        let all = self.store.record_all();
        self.indexer.gen_index(&all);
    }

    /// One write: the record upsert, then — when it succeeded and the
    /// surrogate id resolves — one attachment step per named payload.
    /// Success requires every step to have succeeded; a `false` result means
    /// the state may be partially applied, and re-invoking converges, since
    /// writes are idempotent by natural key and by content hash.
    fn record_auto_insert<F: Fn(Vec<u8>, Vec<u8>) -> Option<Vec<u8>>>(
        &mut self,
        record: &Record,
        attachs: &Attachments,
        merger: F,
    ) -> (r: ChatRecordResult<bool>)
        requires
            old(self)@.wf(),
            forall|a: Vec<u8>, b: Vec<u8>| #[trigger] call_requires(merger, (a, b)),
        ensures
            final(self)@.wf(),
            final(self)@.docs == old(self)@.docs,
            exists|mo: Option<Seq<u8>>|
                {
                    &&& #[trigger] merge_resolved_ok(
                        merger,
                        probe_metadata(old(self)@.store.records, record@),
                        record@.metadata,
                        mo,
                    )
                    &&& (final(self)@.store, r) == spec_auto_insert(
                        old(self)@.store,
                        record@,
                        attaches_view(attachs@),
                        mo,
                    )
                },
    {
        let ghost s0 = self@.store;
        let ghost av = attaches_view(attachs@);
        let rr = self.store.insert_or_update_record(record, merger);
        let ghost mid = self@.store;
        let ghost mo = choose|mo: Option<Seq<u8>>|
            merge_resolved_ok(merger, probe_metadata(s0.records, record@), record@.metadata, mo)
                && (mid, rr) == spec_upsert_record(s0, record@, mo);
        proof {
            assert(merge_resolved_ok(
                merger,
                probe_metadata(s0.records, record@),
                record@.metadata,
                mo,
            ) && (mid, rr) == spec_upsert_record(s0, record@, mo));
        }
        let up = match rr {
            Ok(b) => b,
            Err(e) => {
                return Err(e);
            },
        };
        if !up {
            return Ok(false);
        }
        let rid = match self.store.get_record_id(record) {
            Ok(v) => v,
            Err(e) => {
                return Err(e);
            },
        };
        if rid > 0 {
            let n = attachs.len();
            let mut len_done: usize = 0;
            let mut j: usize = 0;
            proof {
                assert(av.take(0) =~= Seq::<(Seq<char>, Seq<u8>)>::empty());
            }
            while j < n
                invariant
                    n == attachs@.len(),
                    av == attaches_view(attachs@),
                    av.len() == n,
                    j <= n,
                    len_done == j,
                    old(self)@.wf(),
                    s0 == old(self)@.store,
                    self@.store.wf(),
                    self@.docs == old(self)@.docs,
                    merge_resolved_ok(
                        merger,
                        probe_metadata(s0.records, record@),
                        record@.metadata,
                        mo,
                    ),
                    (mid, rr) == spec_upsert_record(s0, record@, mo),
                    rr == Ok::<bool, ChatRecordError>(true),
                    rid == first_match_id(mid.records, record@),
                    rid > 0,
                    apply_attaches(mid, rid, av.take(j as int)) == (
                        self@.store,
                        Ok::<nat, ChatRecordError>(j as nat),
                    ),
                decreases n - j,
            {
                proof {
                    assert(av.take(j + 1).drop_last() =~= av.take(j as int));
                    assert(av.take(j + 1).last() == av[j as int]);
                    assert(av[j as int] == ((attachs@[j as int]).0@, (attachs@[j as int]).1@));
                }
                let pair = &attachs[j];
                let ghost sb = self@.store;
                let rr2 = self.store.insert_or_update_attach(pair.1.clone(), pair.0.clone(), rid);
                match rr2 {
                    Ok(_) => {
                        len_done = len_done + 1;
                    },
                    Err(e) => {
                        proof {
                            lemma_apply_attaches_err(mid, rid, av, j as int, sb, self@.store, e);
                            assert(merge_resolved_ok(
                                merger,
                                probe_metadata(s0.records, record@),
                                record@.metadata,
                                mo,
                            ) && (self@.store, Err::<bool, ChatRecordError>(e))
                                == spec_auto_insert(s0, record@, av, mo));
                        }
                        return Err(e);
                    },
                }
                j = j + 1;
            }
            proof {
                assert(av.take(n as int) =~= av);
            }
            Ok(len_done == attachs.len())
        } else {
            Ok(0 == attachs.len())
        }
    }

    /// The public upsert under a caller-supplied metadata merge policy: a
    /// bare id always fails — it carries no content to write — a record or
    /// a record with attachments goes through the write path.
    pub fn insert_or_update_record_with<F: Fn(Vec<u8>, Vec<u8>) -> Option<Vec<u8>>>(
        &mut self,
        record: RecordType,
        merger: F,
    ) -> (r: ChatRecordResult<bool>)
        requires
            old(self)@.wf(),
            forall|a: Vec<u8>, b: Vec<u8>| #[trigger] call_requires(merger, (a, b)),
        ensures
            final(self)@.wf(),
            final(self)@.docs == old(self)@.docs,
            match record {
                RecordType::Id(_) => final(self)@ == old(self)@ && r == Ok::<
                    bool,
                    ChatRecordError,
                >(false),
                RecordType::Record(rec) => exists|mo: Option<Seq<u8>>|
                    {
                        &&& #[trigger] merge_resolved_ok(
                            merger,
                            probe_metadata(old(self)@.store.records, rec@),
                            rec@.metadata,
                            mo,
                        )
                        &&& (final(self)@.store, r) == spec_auto_insert(
                            old(self)@.store,
                            rec@,
                            Seq::empty(),
                            mo,
                        )
                    },
                RecordType::RecordWithAttaches { record: rec, attaches } => exists|
                    mo: Option<Seq<u8>>,
                |
                    {
                        &&& #[trigger] merge_resolved_ok(
                            merger,
                            probe_metadata(old(self)@.store.records, rec@),
                            rec@.metadata,
                            mo,
                        )
                        &&& (final(self)@.store, r) == spec_auto_insert(
                            old(self)@.store,
                            rec@,
                            attaches_view(attaches@),
                            mo,
                        )
                    },
            },
    {
        match record {
            RecordType::Id(_) => Ok(false),
            RecordType::Record(rec) => {
                let empty: Attachments = Vec::new();
                proof {
                    assert(attaches_view(empty@) =~= Seq::<(Seq<char>, Seq<u8>)>::empty());
                }
                self.record_auto_insert(&rec, &empty, merger)
            },
            RecordType::RecordWithAttaches { record: rec, attaches } => {
                self.record_auto_insert(&rec, &attaches, merger)
            },
        }
    }

    /// The public upsert under the default metadata merge policy: on a
    /// conflict the incoming metadata wins, absent incoming metadata keeps
    /// the old value.
    pub fn insert_or_update_record(&mut self, record: RecordType) -> (r: ChatRecordResult<bool>)
        requires
            old(self)@.wf(),
        ensures
            final(self)@.wf(),
            final(self)@.docs == old(self)@.docs,
            match record {
                RecordType::Id(_) => final(self)@ == old(self)@ && r == Ok::<
                    bool,
                    ChatRecordError,
                >(false),
                RecordType::Record(rec) => (final(self)@.store, r) == spec_auto_insert(
                    old(self)@.store,
                    rec@,
                    Seq::empty(),
                    default_merged(
                        probe_metadata(old(self)@.store.records, rec@),
                        rec@.metadata,
                    ),
                ),
                RecordType::RecordWithAttaches { record: rec, attaches } => (
                    final(self)@.store,
                    r,
                ) == spec_auto_insert(
                    old(self)@.store,
                    rec@,
                    attaches_view(attaches@),
                    default_merged(
                        probe_metadata(old(self)@.store.records, rec@),
                        rec@.metadata,
                    ),
                ),
            },
    {
        let ghost s0 = self@.store;
        match record {
            RecordType::Id(_) => Ok(false),
            RecordType::Record(rec) => {
                let empty: Attachments = Vec::new();
                proof {
                    assert(attaches_view(empty@) =~= Seq::<(Seq<char>, Seq<u8>)>::empty());
                }
                let rr = self.record_auto_insert(&rec, &empty, default_metadata_merger);
                proof {
                    lemma_default_collapse(s0, rec@, attaches_view(empty@), self@.store, rr);
                }
                rr
            },
            RecordType::RecordWithAttaches { record: rec, attaches } => {
                let rr = self.record_auto_insert(&rec, &attaches, default_metadata_merger);
                proof {
                    lemma_default_collapse(s0, rec@, attaches_view(attaches@), self@.store, rr);
                }
                rr
            },
        }
    }

    /// Removes every row that the record value matches; when exactly one
    /// row went away, its attachments go too.
    fn remove_by_record(&mut self, rec: &Record) -> (r: ChatRecordResult<bool>)
        requires
            old(self)@.wf(),
        ensures
            final(self)@.wf(),
            final(self)@.docs == old(self)@.docs,
            (final(self)@.store, r) == spec_remove_by_record(old(self)@.store, rec@),
    {
        let rid = match self.store.get_record_id(rec) {
            Ok(v) => v,
            Err(e) => {
                return Err(e);
            },
        };
        let c = match self.store.remove_record(rec) {
            Ok(v) => v,
            Err(e) => {
                return Err(e);
            },
        };
        if c == 1 {
            match self.store.remove_attachs(rid) {
                Ok(b) => Ok(b),
                Err(e) => Err(e),
            }
        } else {
            Ok(false)
        }
    }

    /// The public removal: a bare id deletes the row carrying it, a record
    /// value deletes what it matches by id or natural key; either way the
    /// removed record's attachments are deleted too, and the blobs they
    /// referenced stay. Success means exactly one record row went away.
    pub fn remove_record(&mut self, record: RecordType) -> (r: ChatRecordResult<bool>)
        requires
            old(self)@.wf(),
        ensures
            final(self)@.wf(),
            final(self)@.docs == old(self)@.docs,
            (final(self)@.store, r) == spec_remove(old(self)@.store, record),
    {
        match record {
            RecordType::Id(i) => {
                let c = match self.store.remove_record_by_id(i) {
                    Ok(v) => v,
                    Err(e) => {
                        return Err(e);
                    },
                };
                if c == 1 {
                    match self.store.remove_attachs(i) {
                        Ok(b) => Ok(b),
                        Err(e) => Err(e),
                    }
                } else {
                    Ok(false)
                }
            },
            RecordType::Record(rec) => self.remove_by_record(&rec),
            RecordType::RecordWithAttaches { record: rec, .. } => self.remove_by_record(&rec),
        }
    }

    /// One read at a given time: what [`spec_query_results`] says for the
    /// store, the index contents and that time. Keyword retrieval reflects
    /// the index as of the last refresh, not later writes.
    pub fn get_record_at(&self, query: &Query, now: i64) -> (r: ChatRecordResult<Vec<Record>>)
        requires
            self@.wf(),
        ensures
            spec_query_results(self@.store, self@.docs, query@, now) == (match r {
                Ok(recs) => Ok::<Seq<RecordView>, ChatRecordError>(
                    recs@.map_values(|x: Record| x@),
                ),
                Err(e) => Err::<Seq<RecordView>, ChatRecordError>(e),
            }),
    {
        let ghost rows = self@.store.records;
        let ghost q = query@;
        let after: i64 = match query.after {
            Some(a) => a,
            None => 0,
        };
        let before: i64 = match query.before {
            Some(b) => b,
            None => now,
        };
        let recs = self.store.record_all();
        match &query.keyword {
            Some(kw) => {
                let ids = match self.indexer.search(
                    query.get_offset(),
                    query.get_limit(),
                    kw.as_str(),
                ) {
                    Ok(v) => v,
                    Err(e) => {
                        return Err(e);
                    },
                };
                proof {
                    assert(ids@ == page(
                        matching_ids(self@.docs, kw@),
                        q.spec_get_offset() as int,
                        q.spec_get_limit() as int,
                    ));
                }
                let ghost idv = ids@;
                let m = ids.len();
                let n = recs.len();
                let mut out: Vec<Record> = Vec::new();
                let mut j: usize = 0;
                proof {
                    assert(idv.take(0) =~= Seq::<i32>::empty());
                }
                while j < m
                    invariant
                        self@.wf(),
                        rows == self@.store.records,
                        m == ids@.len(),
                        idv == ids@,
                        n == recs@.len(),
                        recs@.map_values(|x: Record| x@) == rows,
                        rows.len() == n,
                        j <= m,
                        out@.map_values(|x: Record| x@) == lookup_in_window(
                            rows,
                            idv.take(j as int),
                            after,
                            before,
                        ),
                    decreases m - j,
                {
                    proof {
                        assert(idv.take(j + 1).drop_last() =~= idv.take(j as int));
                        assert(idv.take(j + 1).last() == idv[j as int]);
                    }
                    let id = ids[j];
                    let mut k: usize = 0;
                    while k < n && !row_has_id(&recs[k], id)
                        invariant
                            n == recs@.len(),
                            recs@.map_values(|x: Record| x@) == rows,
                            rows.len() == n,
                            k <= n,
                            forall|t: int| 0 <= t < k ==> (#[trigger] rows[t]).id != Some(id),
                        decreases n - k,
                    {
                        proof {
                            assert((recs@[k as int])@ == rows[k as int]);
                        }
                        k = k + 1;
                    }
                    if k < n {
                        proof {
                            assert((recs@[k as int])@ == rows[k as int]);
                            assert(rows[k as int].id == Some(id));
                            let k2 = choose|k2: int|
                                0 <= k2 < rows.len() && (#[trigger] rows[k2]).id == Some(id);
                            if k2 != k as int {
                                assert(rows[k2].spec_get_id() == rows[k as int].spec_get_id());
                            }
                        }
                        if after <= recs[k].timestamp && recs[k].timestamp < before {
                            let ghost ov = out@.map_values(|x: Record| x@);
                            out.push(recs[k].clone());
                            proof {
                                assert(out@.map_values(|x: Record| x@) =~= ov.push(
                                    rows[k as int],
                                ));
                            }
                        }
                    }
                    j = j + 1;
                }
                proof {
                    assert(idv.take(m as int) =~= idv);
                }
                Ok(out)
            },
            None => {
                let n = recs.len();
                let mut full: Vec<Record> = Vec::new();
                let mut i: usize = 0;
                proof {
                    assert(rows.take(0) =~= Seq::<RecordView>::empty());
                }
                while i < n
                    invariant
                        q == query@,
                        n == recs@.len(),
                        recs@.map_values(|x: Record| x@) == rows,
                        rows.len() == n,
                        i <= n,
                        full@.map_values(|x: Record| x@) == structured_filter(
                            rows.take(i as int),
                            q,
                            after,
                            before,
                        ),
                        query@.keyword is None,
                    decreases n - i,
                {
                    proof {
                        assert(rows.take(i + 1).drop_last() =~= rows.take(i as int));
                        assert(rows.take(i + 1).last() == rows[i as int]);
                        assert((recs@[i as int])@ == rows[i as int]);
                    }
                    let row = &recs[i];
                    let keep = after <= row.timestamp && row.timestamp < before && like_match(
                        query.get_chat_type(),
                        row.chat_type.as_str(),
                    ) && like_match(query.get_owner_id(), row.owner_id.as_str()) && like_match(
                        query.get_group_id(),
                        row.group_id.as_str(),
                    ) && like_match(query.get_sender_id(), row.sender_id.as_str()) && like_match(
                        query.get_sender_name(),
                        row.sender_name.as_str(),
                    );
                    if keep {
                        let ghost fv = full@.map_values(|x: Record| x@);
                        full.push(recs[i].clone());
                        proof {
                            assert(full@.map_values(|x: Record| x@) =~= fv.push(rows[i as int]));
                        }
                    }
                    i = i + 1;
                }
                proof {
                    assert(rows.take(n as int) =~= rows);
                }
                let out = page_records(&full, query.get_offset(), query.get_limit());
                Ok(out)
            },
        }
    }

    /// One read at the time of the call: the half-open default time window
    /// is bounded above by the clock.
    pub fn get_record(&self, query: &Query) -> (r: ChatRecordResult<Vec<Record>>)
        requires
            self@.wf(),
        ensures
            exists|now: i64|
                #[trigger] spec_query_results(self@.store, self@.docs, query@, now) == (match r {
                    Ok(recs) => Ok::<Seq<RecordView>, ChatRecordError>(
                        recs@.map_values(|x: Record| x@),
                    ),
                    Err(e) => Err::<Seq<RecordView>, ChatRecordError>(e),
                }),
    {
        let now = now_millis();
        self.get_record_at(query, now)
    }

    /// The stored bytes of the blob with this hash; `NotFound` exactly when
    /// no blob carries it.
    pub fn get_blob(&self, hash: i64) -> (r: ChatRecordResult<Vec<u8>>)
        requires
            self@.wf(),
        ensures
            match r {
                Ok(bytes) => self@.store.has_blob(hash) && (forall|i: int|
                    0 <= i < self@.store.blobs.len() && (#[trigger] self@.store.blobs[i]).hash
                        == hash ==> bytes@ == self@.store.blobs[i].blob),
                Err(e) => e == ChatRecordError::NotFound && !self@.store.has_blob(hash),
            },
    {
        self.store.get_blob(hash)
    }
}

} // verus!
