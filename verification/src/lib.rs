//! A local persistence layer for chat history: structured chat records with
//! content-addressed, deduplicated binary attachments, kept searchable through
//! an explicitly rebuilt full-text index and queried through a unified query
//! surface (structured filters, time window, keyword, pagination).

use vstd::prelude::*;

mod attach;
mod blob;
mod clock;
mod error;
mod hashing;
mod index;
mod pattern;
mod query;
mod record;
mod record_type;
mod recorder;
mod seq_util;
mod store;
mod text;

pub use attach::Attachment;
pub use attach::AttachmentView;
pub use attach::spec_record_id_of;
pub use blob::Blob;
pub use blob::BlobView;
pub use hashing::content_hash_of;
pub use index::ContentIndexer;
pub use index::DocView;
pub use index::doc_of;
pub use index::gen_docs;
pub use index::matching_ids;
pub use index::sorted_by_recency;
pub use index::lemma_gen_docs_sorted;
pub use index::lemma_search_none;
pub use index::lemma_search_pagination;
pub use index::lemma_search_unique;
pub use record::Record;
pub use record::RecordView;
pub use record::same_natural_key;
pub use error::ChatRecordError;
pub use error::ChatRecordResult;
pub use pattern::like_match;
pub use pattern::spec_like;
pub use query::Query;
pub use query::QueryView;
pub use query::pattern_or_default;
pub use record_type::AttachType;
pub use record_type::Attachments;
pub use record_type::RecordType;
pub use recorder::Recorder;
pub use recorder::RecorderView;
pub use recorder::apply_attaches;
pub use recorder::attaches_view;
pub use recorder::default_merged;
pub use recorder::default_metadata_merger;
pub use recorder::lookup_in_window;
pub use recorder::patterns_ok;
pub use recorder::spec_auto_insert;
pub use recorder::spec_query_results;
pub use recorder::spec_remove;
pub use recorder::spec_remove_by_record;
pub use recorder::spec_after;
pub use recorder::spec_before;
pub use recorder::spec_removed_id;
pub use recorder::structured_filter;
pub use recorder::window_ok;
pub use recorder::lemma_default_policy_takes_new;
pub use recorder::lemma_removal_cascade;
pub use recorder::lemma_round_trip_none;
pub use recorder::lemma_round_trip_unique;
pub use recorder::lemma_structured_pagination;
pub use seq_util::page;
pub use store::Store;
pub use store::StoreView;
pub use store::apply_attach_update;
pub use store::apply_update;
pub use store::assigned_row;
pub use store::attach_matches;
pub use store::attach_matches_key;
pub use store::count_matching_attachments;
pub use store::remove_matching_attachments;
pub use store::attachments_of;
pub use store::attachments_wf;
pub use store::blobs_wf;
pub use store::count_attach_key;
pub use store::count_matching;
pub use store::first_match_id;
pub use store::has_attach_key;
pub use store::has_record_id;
pub use store::merge_resolved_ok;
pub use store::probe_metadata;
pub use store::record_matches;
pub use store::records_wf;
pub use store::remove_matching_records;
pub use store::remove_record_attachments;
pub use store::remove_record_id_rows;
pub use store::sole_natural_key_row;
pub use store::spec_insert_blob;
pub use store::spec_insert_or_update_attach;
pub use store::spec_insert_record;
pub use store::spec_upsert_attach;
pub use store::spec_upsert_record;
pub use store::updated_row;
pub use store::view_opt_bytes;
pub use store::lemma_apply_update_wf;
pub use store::lemma_attachments_of_none;
pub use store::lemma_blob_dedup_idempotent;
pub use store::lemma_count_matching_unique;
pub use store::lemma_ids_stable_under_upsert;
pub use store::lemma_metadata_merge;
pub use store::lemma_remove_record_attachments;
pub use store::lemma_spec_upsert_wf;
pub use store::lemma_upsert_identity;
pub use text::contains_chars;
pub use text::contains_seq;

verus! {

} // verus!
