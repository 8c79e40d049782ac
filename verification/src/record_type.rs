use vstd::prelude::*;

use crate::attach::Attachment;
use crate::record::Record;

verus! {

/// Named binary payloads to be attached to a record, keyed by name. A later
/// entry with the same name supersedes an earlier one.
pub type Attachments = Vec<(String, Vec<u8>)>;

/// What a write or removal may identify: a bare surrogate id, a record, or a
/// record together with named attachments.
pub enum RecordType {
    Id(i32),
    Record(Record),
    RecordWithAttaches { record: Record, attaches: Attachments },
}

impl RecordType {
    /// The record carried by this variant, if any; a bare id carries none.
    pub fn get_record<'a>(&'a self) -> (r: Option<&'a Record>)
        ensures
            match *self {
                RecordType::Id(_) => r is None,
                RecordType::Record(ref record) => r == Some(record),
                RecordType::RecordWithAttaches { ref record, .. } => r == Some(record),
            },
    {
        match self {
            RecordType::Id(_) => None,
            RecordType::Record(record) => Some(record),
            RecordType::RecordWithAttaches { record, .. } => Some(record),
        }
    }

    /// Renders the carried record, or a placeholder when only an id is given.
    pub fn display(&self) -> (r: String)
        ensures
            match *self {
                RecordType::Id(_) => r@ == "[no content]"@,
                RecordType::Record(ref record) => r@ == record@.sender_name + " ("@
                    + record@.sender_id + "): "@ + record@.content,
                RecordType::RecordWithAttaches { ref record, .. } => r@ == record@.sender_name
                    + " ("@ + record@.sender_id + "): "@ + record@.content,
            },
    {
        match self.get_record() {
            Some(record) => record.display(),
            None => "[no content]".to_owned(),
        }
    }
}

impl From<i32> for RecordType {
    /// A bare id stands for the record carrying it.
    fn from(src: i32) -> (r: RecordType)
        ensures
            r == RecordType::Id(src),
    {
        RecordType::Id(src)
    }
}

impl vstd::std_specs::convert::FromSpecImpl<i32> for RecordType {
    open spec fn obeys_from_spec() -> bool {
        true
    }

    open spec fn from_spec(src: i32) -> RecordType {
        RecordType::Id(src)
    }
}

impl From<Record> for RecordType {
    /// A record value identifies itself, with no attachments.
    fn from(src: Record) -> (r: RecordType)
        ensures
            r == RecordType::Record(src),
    {
        RecordType::Record(src)
    }
}

impl vstd::std_specs::convert::FromSpecImpl<Record> for RecordType {
    open spec fn obeys_from_spec() -> bool {
        true
    }

    open spec fn from_spec(src: Record) -> RecordType {
        RecordType::Record(src)
    }
}

impl From<(Record, Attachments)> for RecordType {
    /// A record paired with named payloads to attach.
    fn from(src: (Record, Attachments)) -> (r: RecordType)
        ensures
            r == (RecordType::RecordWithAttaches { record: src.0, attaches: src.1 }),
    {
        RecordType::RecordWithAttaches { record: src.0, attaches: src.1 }
    }
}

impl vstd::std_specs::convert::FromSpecImpl<(Record, Attachments)> for RecordType {
    open spec fn obeys_from_spec() -> bool {
        true
    }

    open spec fn from_spec(src: (Record, Attachments)) -> RecordType {
        RecordType::RecordWithAttaches { record: src.0, attaches: src.1 }
    }
}

/// What an attachment operation may identify: a bare surrogate id or an
/// attachment row.
pub enum AttachType {
    Id(i32),
    Attach(Attachment),
}

impl From<i32> for AttachType {
    /// A bare id stands for the attachment carrying it.
    fn from(src: i32) -> (r: AttachType)
        ensures
            r == AttachType::Id(src),
    {
        AttachType::Id(src)
    }
}

impl vstd::std_specs::convert::FromSpecImpl<i32> for AttachType {
    open spec fn obeys_from_spec() -> bool {
        true
    }

    open spec fn from_spec(src: i32) -> AttachType {
        AttachType::Id(src)
    }
}

impl From<Attachment> for AttachType {
    /// An attachment row identifies itself.
    fn from(src: Attachment) -> (r: AttachType)
        ensures
            r == AttachType::Attach(src),
    {
        AttachType::Attach(src)
    }
}

impl vstd::std_specs::convert::FromSpecImpl<Attachment> for AttachType {
    open spec fn obeys_from_spec() -> bool {
        true
    }

    open spec fn from_spec(src: Attachment) -> AttachType {
        AttachType::Attach(src)
    }
}

} // verus!
