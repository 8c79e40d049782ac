use vstd::prelude::*;

use crate::error::ChatRecordError;
use crate::error::ChatRecordResult;
use crate::record::Record;
use crate::record::RecordView;
use crate::seq_util::lemma_page_concat;
use crate::seq_util::page;
use crate::text::chars_of;
use crate::text::contains_chars;
use crate::text::contains_seq;

verus! {

/// One derived index document: the owning record's surrogate id, the record's
/// content, and its timestamp. Documents are regenerated wholesale on
/// refresh, never partially updated.
struct IndexDoc {
    idx: i32,
    content: Vec<char>,
    timestamp: i64,
}

/// The mathematical value of an index document.
pub ghost struct DocView {
    pub idx: i32,
    pub content: Seq<char>,
    pub timestamp: i64,
}

impl View for IndexDoc {
    type V = DocView;

    closed spec fn view(&self) -> DocView {
        DocView { idx: self.idx, content: self.content@, timestamp: self.timestamp }
    }
}

/// The document derived from a record.
pub open spec fn doc_of(r: RecordView) -> DocView {
    DocView { idx: r.spec_get_id(), content: r.content, timestamp: r.timestamp }
}

/// Where a document with timestamp `ts` is filed: after every document at
/// least as recent, so the index stays ordered most-recent-first and ties
/// keep their arrival order.
pub open spec fn insert_pos(docs: Seq<DocView>, ts: i64) -> int
    decreases docs.len(),
{
    if docs.len() == 0 {
        0
    } else if docs[0].timestamp < ts {
        0
    } else {
        1 + insert_pos(docs.drop_first(), ts)
    }
}

/// Sorted insertion of one document.
pub open spec fn sorted_insert(docs: Seq<DocView>, d: DocView) -> Seq<DocView> {
    docs.insert(insert_pos(docs, d.timestamp), d)
}

/// The index contents after filing a document for each record of `rs`, in
/// order.
pub open spec fn gen_docs(docs: Seq<DocView>, rs: Seq<RecordView>) -> Seq<DocView>
    decreases rs.len(),
{
    if rs.len() == 0 {
        docs
    } else {
        sorted_insert(gen_docs(docs, rs.drop_last()), doc_of(rs.last()))
    }
}

/// Whether the index is ordered most-recent-first.
pub open spec fn sorted_by_recency(docs: Seq<DocView>) -> bool {
    forall|i: int, j: int|
        0 <= i < j < docs.len() ==> (#[trigger] docs[i]).timestamp >= (#[trigger] docs[j]).timestamp
}

/// The ids of the documents whose content contains `kw`, in index order —
/// most-recent-first for a well-kept index.
pub open spec fn matching_ids(docs: Seq<DocView>, kw: Seq<char>) -> Seq<i32>
    decreases docs.len(),
{
    if docs.len() == 0 {
        Seq::empty()
    } else {
        let rest = matching_ids(docs.drop_last(), kw);
        if contains_seq(docs.last().content, kw) {
            rest.push(docs.last().idx)
        } else {
            rest
        }
    }
}

/// What `insert_pos` finds: the first position whose document is older than
/// `ts`.
proof fn lemma_insert_pos_is(docs: Seq<DocView>, ts: i64, p: int)
    requires
        0 <= p <= docs.len(),
        forall|k: int| 0 <= k < p ==> (#[trigger] docs[k]).timestamp >= ts,
        p < docs.len() ==> docs[p].timestamp < ts,
    ensures
        insert_pos(docs, ts) == p,
    decreases docs.len(),
{
    if docs.len() > 0 && !(docs[0].timestamp < ts) {
        let d = docs.drop_first();
        assert(forall|k: int| 0 <= k < d.len() ==> #[trigger] d[k] == docs[k + 1]);
        lemma_insert_pos_is(d, ts, p - 1);
    }
}

/// Sorted insertion keeps the index ordered most-recent-first.
pub proof fn lemma_sorted_insert_sorted(docs: Seq<DocView>, d: DocView)
    requires
        sorted_by_recency(docs),
    ensures
        sorted_by_recency(sorted_insert(docs, d)),
    decreases docs.len(),
{
    let p = insert_pos(docs, d.timestamp);
    lemma_insert_pos_bounds(docs, d.timestamp);
    let res = docs.insert(p, d);
    assert forall|i: int, j: int| 0 <= i < j < res.len() implies (#[trigger] res[i]).timestamp >= (
    #[trigger] res[j]).timestamp by {
        let i0 = if i < p {
            i
        } else {
            i - 1
        };
        let j0 = if j < p {
            j
        } else {
            j - 1
        };
        if i == p {
            assert(res[j] == docs[j0]);
            assert(docs[p].timestamp < d.timestamp);
            assert(docs[p].timestamp >= docs[j0].timestamp || p == j0);
        } else if j == p {
            assert(res[i] == docs[i0]);
            assert(docs[i0].timestamp >= d.timestamp);
        } else {
            assert(res[i] == docs[i0]);
            assert(res[j] == docs[j0]);
        }
    }
}

/// `insert_pos` lands inside the index, behind newer documents and ahead of
/// strictly older ones.
proof fn lemma_insert_pos_bounds(docs: Seq<DocView>, ts: i64)
    ensures
        0 <= insert_pos(docs, ts) <= docs.len(),
        forall|k: int| 0 <= k < insert_pos(docs, ts) ==> (#[trigger] docs[k]).timestamp >= ts,
        insert_pos(docs, ts) < docs.len() ==> docs[insert_pos(docs, ts)].timestamp < ts,
    decreases docs.len(),
{
    if docs.len() > 0 && !(docs[0].timestamp < ts) {
        let d = docs.drop_first();
        lemma_insert_pos_bounds(d, ts);
        assert(forall|k: int| 0 <= k < d.len() ==> #[trigger] d[k] == docs[k + 1]);
        assert forall|k: int| 0 <= k < insert_pos(docs, ts) implies (#[trigger] docs[k]).timestamp
            >= ts by {
            if k > 0 {
                assert(d[k - 1] == docs[k]);
            }
        }
    }
}

/// A rebuild of a well-kept index stays ordered most-recent-first.
pub proof fn lemma_gen_docs_sorted(docs: Seq<DocView>, rs: Seq<RecordView>)
    requires
        sorted_by_recency(docs),
    ensures
        sorted_by_recency(gen_docs(docs, rs)),
    decreases rs.len(),
{
    if rs.len() > 0 {
        lemma_gen_docs_sorted(docs, rs.drop_last());
        lemma_sorted_insert_sorted(gen_docs(docs, rs.drop_last()), doc_of(rs.last()));
    }
}

/// An index with no matching document yields no ids.
proof fn lemma_matching_ids_none(docs: Seq<DocView>, kw: Seq<char>)
    requires
        forall|k: int| 0 <= k < docs.len() ==> !contains_seq((#[trigger] docs[k]).content, kw),
    ensures
        matching_ids(docs, kw) == Seq::<i32>::empty(),
    decreases docs.len(),
{
    if docs.len() > 0 {
        let front = docs.drop_last();
        assert(forall|k: int| 0 <= k < front.len() ==> #[trigger] front[k] == docs[k]);
        lemma_matching_ids_none(front, kw);
    }
}

/// Inserting a non-matching document leaves the matches unchanged.
proof fn lemma_matching_ids_insert_nomatch(docs: Seq<DocView>, p: int, d: DocView, kw: Seq<char>)
    requires
        0 <= p <= docs.len(),
        !contains_seq(d.content, kw),
    ensures
        matching_ids(docs.insert(p, d), kw) == matching_ids(docs, kw),
    decreases docs.len(),
{
    let res = docs.insert(p, d);
    if p == docs.len() {
        assert(res.drop_last() =~= docs);
        assert(res.last() == d);
    } else {
        assert(res.drop_last() =~= docs.drop_last().insert(p, d));
        assert(res.last() == docs.last());
        lemma_matching_ids_insert_nomatch(docs.drop_last(), p, d, kw);
    }
}

/// Inserting the only matching document yields exactly its id.
proof fn lemma_matching_ids_insert_match(docs: Seq<DocView>, p: int, d: DocView, kw: Seq<char>)
    requires
        0 <= p <= docs.len(),
        contains_seq(d.content, kw),
        forall|k: int| 0 <= k < docs.len() ==> !contains_seq((#[trigger] docs[k]).content, kw),
    ensures
        matching_ids(docs.insert(p, d), kw) == seq![d.idx],
    decreases docs.len(),
{
    let res = docs.insert(p, d);
    if p == docs.len() {
        assert(res.drop_last() =~= docs);
        assert(res.last() == d);
        lemma_matching_ids_none(docs, kw);
        assert(matching_ids(res, kw) =~= seq![d.idx]);
    } else {
        assert(res.drop_last() =~= docs.drop_last().insert(p, d));
        assert(res.last() == docs.last());
        let front = docs.drop_last();
        assert(forall|k: int| 0 <= k < front.len() ==> #[trigger] front[k] == docs[k]);
        lemma_matching_ids_insert_match(front, p, d, kw);
        assert(!contains_seq(docs.last().content, kw));
        assert(matching_ids(res, kw) =~= seq![d.idx]);
    }
}

/// Search/store consistency, unique half: after a rebuild from `rs`, a
/// keyword contained in exactly one record's content yields exactly that
/// record's id.
pub proof fn lemma_search_unique(rs: Seq<RecordView>, kw: Seq<char>, u: int)
    requires
        0 <= u < rs.len(),
        contains_seq(rs[u].content, kw),
        forall|j: int| 0 <= j < rs.len() && j != u ==> !contains_seq((#[trigger] rs[j]).content, kw),
    ensures
        matching_ids(gen_docs(Seq::empty(), rs), kw) == seq![rs[u].spec_get_id()],
    decreases rs.len(),
{
    let front = rs.drop_last();
    assert(forall|k: int| 0 <= k < front.len() ==> #[trigger] front[k] == rs[k]);
    let base = gen_docs(Seq::empty(), front);
    let d = doc_of(rs.last());
    let p = insert_pos(base, d.timestamp);
    lemma_insert_pos_bounds(base, d.timestamp);
    if u == rs.len() - 1 {
        lemma_search_none(front, kw);
        lemma_gen_docs_no_match(front, kw, base);
        lemma_matching_ids_insert_match(base, p, d, kw);
    } else {
        lemma_search_unique(front, kw, u);
        assert(!contains_seq(d.content, kw));
        lemma_matching_ids_insert_nomatch(base, p, d, kw);
    }
}

/// Search/store consistency, empty half: after a rebuild from `rs`, a
/// keyword contained in no record's content yields no ids.
pub proof fn lemma_search_none(rs: Seq<RecordView>, kw: Seq<char>)
    requires
        forall|j: int| 0 <= j < rs.len() ==> !contains_seq((#[trigger] rs[j]).content, kw),
    ensures
        matching_ids(gen_docs(Seq::empty(), rs), kw) == Seq::<i32>::empty(),
    decreases rs.len(),
{
    if rs.len() > 0 {
        let front = rs.drop_last();
        assert(forall|k: int| 0 <= k < front.len() ==> #[trigger] front[k] == rs[k]);
        lemma_search_none(front, kw);
        let base = gen_docs(Seq::empty(), front);
        let d = doc_of(rs.last());
        lemma_insert_pos_bounds(base, d.timestamp);
        lemma_matching_ids_insert_nomatch(base, insert_pos(base, d.timestamp), d, kw);
    }
}

/// A rebuilt index holds no matching document when no source record's
/// content matches.
proof fn lemma_gen_docs_no_match(rs: Seq<RecordView>, kw: Seq<char>, docs: Seq<DocView>)
    requires
        forall|j: int| 0 <= j < rs.len() ==> !contains_seq((#[trigger] rs[j]).content, kw),
        docs == gen_docs(Seq::empty(), rs),
    ensures
        forall|k: int| 0 <= k < docs.len() ==> !contains_seq((#[trigger] docs[k]).content, kw),
    decreases rs.len(),
{
    if rs.len() > 0 {
        let front = rs.drop_last();
        assert(forall|k: int| 0 <= k < front.len() ==> #[trigger] front[k] == rs[k]);
        let base = gen_docs(Seq::empty(), front);
        lemma_gen_docs_no_match(front, kw, base);
        let d = doc_of(rs.last());
        let p = insert_pos(base, d.timestamp);
        lemma_insert_pos_bounds(base, d.timestamp);
        assert forall|k: int| 0 <= k < docs.len() implies !contains_seq(
            (#[trigger] docs[k]).content,
            kw,
        ) by {
            if k < p {
                assert(docs[k] == base[k]);
            } else if k == p {
                assert(docs[k] == d);
            } else {
                assert(docs[k] == base[k - 1]);
            }
        }
    }
}

/// Pagination determinism for keyword search: adjacent pages of one ranked
/// match list concatenate to one page of the combined size — no duplicates,
/// no gaps, no reordering.
pub proof fn lemma_search_pagination(
    docs: Seq<DocView>,
    kw: Seq<char>,
    offset: int,
    l1: int,
    l2: int,
)
    requires
        offset >= 0,
        l1 >= 0,
        l2 >= 0,
    ensures
        page(matching_ids(docs, kw), offset, l1 + l2) == page(matching_ids(docs, kw), offset, l1)
            + page(matching_ids(docs, kw), offset + l1, l2),
{
    lemma_page_concat(matching_ids(docs, kw), offset, l1, l2);
}

/// The derived full-text index: an explicitly rebuilt set of documents over
/// record content, ordered most-recent-first, searchable by keyword with
/// server-side pagination over the ranked match list.
///
/// The reader's view only advances on an explicit rebuild: writes to the
/// record store are not reflected until `cleanup_index`/`gen_index` run
/// again.
pub struct ContentIndexer {
    docs: Vec<IndexDoc>,
}

impl View for ContentIndexer {
    type V = Seq<DocView>;

    closed spec fn view(&self) -> Seq<DocView> {
        self.docs@.map_values(|d: IndexDoc| d@)
    }
}

impl ContentIndexer {
    /// A fresh index with no documents.
    pub fn new() -> (r: ContentIndexer)
        ensures
            r@ == Seq::<DocView>::empty(),
    {
        let r = ContentIndexer { docs: Vec::new() };
        proof {
            assert(r@ =~= Seq::<DocView>::empty());
        }
        r
    }

    /// Clears every document.
    pub fn cleanup_index(&mut self)
        ensures
            final(self)@ == Seq::<DocView>::empty(),
    {
        self.docs.clear();
        proof {
            assert(self@ =~= Seq::<DocView>::empty());
        }
    }

    /// Files one document per record on top of the present contents, keeping
    /// the index ordered most-recent-first; a full refresh clears first.
    pub fn gen_index(&mut self, records: &Vec<Record>)
        requires
            sorted_by_recency(old(self)@),
        ensures
            final(self)@ == gen_docs(old(self)@, records@.map_values(|r: Record| r@)),
            sorted_by_recency(final(self)@),
    {
        let ghost docs0 = self@;
        let ghost rv = records@.map_values(|r: Record| r@);
        let n = records.len();
        let mut i: usize = 0;
        while i < n
            invariant
                n == records@.len(),
                rv == records@.map_values(|r: Record| r@),
                rv.len() == n,
                i <= n,
                self@ == gen_docs(docs0, rv.take(i as int)),
                sorted_by_recency(self@),
            decreases n - i,
        {
            proof {
                assert(rv.take(i + 1).drop_last() =~= rv.take(i as int));
                assert(rv.take(i + 1).last() == rv[i as int]);
                assert((records@[i as int])@ == rv[i as int]);
            }
            let doc = IndexDoc {
                idx: records[i].get_id(),
                content: chars_of(records[i].content.as_str()),
                timestamp: records[i].timestamp,
            };
            proof {
                assert(doc@ == doc_of(rv[i as int]));
            }
            let ts = doc.timestamp;
            let m = self.docs.len();
            let mut p: usize = 0;
            while p < m && self.docs[p].timestamp >= ts
                invariant
                    m == self.docs@.len(),
                    self@.len() == m,
                    p <= m,
                    forall|k: int| 0 <= k < p ==> (#[trigger] self@[k]).timestamp >= ts,
                decreases m - p,
            {
                proof {
                    assert((self.docs@[p as int])@ == self@[p as int]);
                }
                p = p + 1;
            }
            proof {
                assert(p < m ==> (self.docs@[p as int])@ == self@[p as int]);
                lemma_insert_pos_is(self@, ts, p as int);
            }
            let ghost mid = self@;
            self.docs.insert(p, doc);
            proof {
                assert(self@ =~= mid.insert(p as int, doc@));
                assert(self@ == sorted_insert(mid, doc_of(rv[i as int])));
                lemma_sorted_insert_sorted(mid, doc_of(rv[i as int]));
            }
            i = i + 1;
        }
        proof {
            assert(rv.take(n as int) =~= rv);
        }
    }

    /// Keyword search: the ids of the documents whose content contains the
    /// keyword, in index order, paginated server-side — the top
    /// `offset + limit` matches with the first `offset` skipped. An empty
    /// keyword is malformed and fails with `QueryParse`; a negative offset
    /// reads as 0 and a negative limit as an empty page.
    pub fn search(&self, offset: i64, limit: i64, keyword: &str) -> (r: ChatRecordResult<Vec<i32>>)
        ensures
            match r {
                Ok(ids) => keyword@.len() > 0 && ids@ == page(
                    matching_ids(self@, keyword@),
                    if offset < 0 {
                        0
                    } else {
                        offset as int
                    },
                    if limit < 0 {
                        0
                    } else {
                        limit as int
                    },
                ),
                Err(e) => e == ChatRecordError::QueryParse && keyword@.len() == 0,
            },
    {
        let kw = chars_of(keyword);
        if kw.len() == 0 {
            return Err(ChatRecordError::QueryParse);
        }
        let off: i64 = if offset < 0 {
            0
        } else {
            offset
        };
        let lim: i64 = if limit < 0 {
            0
        } else {
            limit
        };
        let n = self.docs.len();
        let mut full: Vec<i32> = Vec::new();
        let mut i: usize = 0;
        while i < n
            invariant
                n == self.docs@.len(),
                self@.len() == n,
                i <= n,
                kw@ == keyword@,
                full@ == matching_ids(self@.take(i as int), kw@),
            decreases n - i,
        {
            proof {
                assert(self@.take(i + 1).drop_last() =~= self@.take(i as int));
                assert(self@.take(i + 1).last() == self@[i as int]);
                assert((self.docs@[i as int])@ == self@[i as int]);
            }
            if contains_chars(&self.docs[i].content, &kw) {
                full.push(self.docs[i].idx);
            }
            i = i + 1;
        }
        proof {
            assert(self@.take(n as int) =~= self@);
        }
        let ghost s = full@;
        let ghost o: int = off as int;
        let ghost l: int = lim as int;
        let fl = full.len();
        let mut out: Vec<i32> = Vec::new();
        let mut skipped: i64 = 0;
        let mut taken: i64 = 0;
        let mut j: usize = 0;
        while j < fl && taken < lim
            invariant
                fl == s.len(),
                full@ == s,
                j <= fl,
                0 <= o,
                0 <= l,
                off == o,
                lim == l,
                skipped == if j < o {
                    j as int
                } else {
                    o
                },
                taken == out@.len(),
                taken <= l,
                out@ == s.subrange(
                    if o < j {
                        o
                    } else {
                        j as int
                    },
                    if o + l < j {
                        o + l
                    } else {
                        j as int
                    },
                ),
            decreases fl - j,
        {
            if skipped < off {
                skipped = skipped + 1;
            } else {
                out.push(full[j]);
                proof {
                    assert(out@ =~= s.subrange(
                        if o < j + 1 {
                            o
                        } else {
                            j + 1
                        },
                        if o + l < j + 1 {
                            o + l
                        } else {
                            j + 1
                        },
                    ));
                }
                taken = taken + 1;
            }
            j = j + 1;
        }
        proof {
            assert(out@ =~= page(s, o, l));
        }
        Ok(out)
    }
}

} // verus!
