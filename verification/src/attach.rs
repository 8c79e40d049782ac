use vstd::prelude::*;

use crate::record_type::RecordType;

verus! {

/// A named link from a record to a blob: many attachments may reference the
/// same blob. `(record_id, name)` is unique within the store; writing the
/// same name again for the same record replaces the hash reference.
#[derive(Debug)]
pub struct Attachment {
    pub id: Option<i32>,
    pub record_id: i32,
    pub name: String,
    pub hash: i64,
}

/// The mathematical value of an [`Attachment`].
pub ghost struct AttachmentView {
    pub id: Option<i32>,
    pub record_id: i32,
    pub name: Seq<char>,
    pub hash: i64,
}

impl View for Attachment {
    type V = AttachmentView;

    open spec fn view(&self) -> AttachmentView {
        AttachmentView {
            id: self.id,
            record_id: self.record_id,
            name: self.name@,
            hash: self.hash,
        }
    }
}

impl AttachmentView {
    /// The surrogate id as an integer: 0 stands for "not assigned".
    pub open spec fn spec_get_id(self) -> i32 {
        match self.id {
            Some(i) => i,
            None => 0,
        }
    }
}

/// The record id that a [`RecordType`] stands for: the bare id itself, or the
/// carried record's assigned id (0 when none has been assigned).
pub open spec fn spec_record_id_of(r: RecordType) -> i32 {
    match r {
        RecordType::Id(id) => id,
        RecordType::Record(record) => record@.spec_get_id(),
        RecordType::RecordWithAttaches { record, .. } => record@.spec_get_id(),
    }
}

impl Clone for Attachment {
    /// Cloning keeps the attachment's value.
    fn clone(&self) -> (r: Attachment)
        ensures
            r@ == self@,
    {
        Attachment {
            id: self.id,
            record_id: self.record_id,
            name: self.name.clone(),
            hash: self.hash,
        }
    }
}

impl Attachment {
    /// A fresh (not yet stored) attachment row linking `record` to the blob
    /// with the given hash under the given name.
    pub fn new(hash: i64, name: String, record: &RecordType) -> (r: Attachment)
        ensures
            r@.id is None,
            r@.record_id == spec_record_id_of(*record),
            r@.name == name@,
            r@.hash == hash,
    {
        Attachment {
            id: None,
            record_id: match record {
                RecordType::Id(id) => *id,
                RecordType::Record(record) => record.get_id(),
                RecordType::RecordWithAttaches { record, .. } => record.get_id(),
            },
            name,
            hash,
        }
    }

    /// The surrogate id, or 0 when none has been assigned yet.
    pub fn get_id(&self) -> (r: i32)
        ensures
            r == self@.spec_get_id(),
    {
        match self.id {
            Some(i) => i,
            None => 0,
        }
    }
}

} // verus!
