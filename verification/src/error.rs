use vstd::prelude::*;

verus! {

/// The error taxonomy of the store.
///
/// Non-existence on an existence probe and a deduplication hit are expected
/// branches and are reported through ordinary boolean results, never through
/// this type. `NotFound` is reserved for lookups where a single row is owed;
/// `QueryParse` for malformed keyword syntax; `Storage` for constraint-class
/// failures of the underlying tables (such as an exhausted id space).
#[derive(Clone, Copy, Debug, PartialEq, Eq, Structural)]
pub enum ChatRecordError {
    NotFound,
    QueryParse,
    Storage,
}

/// The result type of every fallible operation of the store.
pub type ChatRecordResult<T> = Result<T, ChatRecordError>;

impl ChatRecordError {
    /// A human-readable rendering of the error.
    pub fn message(&self) -> (r: String)
        ensures
            *self == ChatRecordError::NotFound ==> r@ == "not found"@,
            *self == ChatRecordError::QueryParse ==> r@ == "malformed keyword query"@,
            *self == ChatRecordError::Storage ==> r@ == "storage constraint violated"@,
    {
        match self {
            ChatRecordError::NotFound => "not found".to_owned(),
            ChatRecordError::QueryParse => "malformed keyword query".to_owned(),
            ChatRecordError::Storage => "storage constraint violated".to_owned(),
        }
    }
}

} // verus!
