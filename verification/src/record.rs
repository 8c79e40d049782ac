use vstd::prelude::*;

verus! {

/// A chat message observation.
///
/// The natural key `(chat_type, owner_id, group_id, sender_id, timestamp)`
/// identifies a record logically: two records are "the same" when this tuple
/// matches, regardless of surrogate id. The surrogate `id` is assigned by the
/// store on first insert and never changes afterwards; before insertion it is
/// `None`.
#[derive(Debug)]
pub struct Record {
    pub id: Option<i32>,
    pub chat_type: String,
    pub owner_id: String,
    pub group_id: String,
    pub sender_id: String,
    pub sender_name: String,
    pub content: String,
    /// Milliseconds since the epoch.
    pub timestamp: i64,
    /// Opaque byte payload, merged on conflicting upserts by a merge policy.
    pub metadata: Option<Vec<u8>>,
}

/// The mathematical value of a [`Record`].
pub ghost struct RecordView {
    pub id: Option<i32>,
    pub chat_type: Seq<char>,
    pub owner_id: Seq<char>,
    pub group_id: Seq<char>,
    pub sender_id: Seq<char>,
    pub sender_name: Seq<char>,
    pub content: Seq<char>,
    pub timestamp: i64,
    pub metadata: Option<Seq<u8>>,
}

impl View for Record {
    type V = RecordView;

    open spec fn view(&self) -> RecordView {
        RecordView {
            id: self.id,
            chat_type: self.chat_type@,
            owner_id: self.owner_id@,
            group_id: self.group_id@,
            sender_id: self.sender_id@,
            sender_name: self.sender_name@,
            content: self.content@,
            timestamp: self.timestamp,
            metadata: match self.metadata {
                Some(ref m) => Some(m@),
                None => None,
            },
        }
    }
}

impl RecordView {
    /// The surrogate id as an integer: 0 stands for "not assigned".
    pub open spec fn spec_get_id(self) -> i32 {
        match self.id {
            Some(i) => i,
            None => 0,
        }
    }
}

/// Whether two records carry the same natural key.
pub open spec fn same_natural_key(a: RecordView, b: RecordView) -> bool {
    &&& a.chat_type == b.chat_type
    &&& a.owner_id == b.owner_id
    &&& a.group_id == b.group_id
    &&& a.sender_id == b.sender_id
    &&& a.timestamp == b.timestamp
}

impl Default for Record {
    /// An empty record: no id, empty fields, timestamp 0, no metadata.
    fn default() -> (r: Record)
        ensures
            r@.id is None,
            r@.chat_type == Seq::<char>::empty(),
            r@.owner_id == Seq::<char>::empty(),
            r@.group_id == Seq::<char>::empty(),
            r@.sender_id == Seq::<char>::empty(),
            r@.sender_name == Seq::<char>::empty(),
            r@.content == Seq::<char>::empty(),
            r@.timestamp == 0,
            r@.metadata is None,
    {
        Record {
            id: None,
            chat_type: String::new(),
            owner_id: String::new(),
            group_id: String::new(),
            sender_id: String::new(),
            sender_name: String::new(),
            content: String::new(),
            timestamp: 0,
            metadata: None,
        }
    }
}

impl Clone for Record {
    /// Cloning keeps the record's value.
    fn clone(&self) -> (r: Record)
        ensures
            r@ == self@,
    {
        Record {
            id: self.id,
            chat_type: self.chat_type.clone(),
            owner_id: self.owner_id.clone(),
            group_id: self.group_id.clone(),
            sender_id: self.sender_id.clone(),
            sender_name: self.sender_name.clone(),
            content: self.content.clone(),
            timestamp: self.timestamp,
            metadata: match &self.metadata {
                Some(m) => Some(m.clone()),
                None => None,
            },
        }
    }
}

impl Record {
    /// The surrogate id, or 0 when none has been assigned yet.
    pub fn get_id(&self) -> (r: i32)
        ensures
            r == self@.spec_get_id(),
    {
        match self.id {
            Some(i) => i,
            None => 0,
        }
    }

    /// A one-line rendering of the record: `sender_name (sender_id): content`.
    pub fn display(&self) -> (r: String)
        ensures
            r@ == self@.sender_name + " ("@ + self@.sender_id + "): "@ + self@.content,
    {
        let mut s = self.sender_name.clone();
        s.append(" (");
        s.append(self.sender_id.as_str());
        s.append("): ");
        s.append(self.content.as_str());
        s
    }

    /// Whether `self` and `other` carry the same natural key.
    pub fn natural_key_eq(&self, other: &Record) -> (r: bool)
        ensures
            r == same_natural_key(self@, other@),
    {
        self.chat_type == other.chat_type && self.owner_id == other.owner_id
            && self.group_id == other.group_id && self.sender_id == other.sender_id
            && self.timestamp == other.timestamp
    }
}

} // verus!
