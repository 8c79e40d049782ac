use vstd::prelude::*;

verus! {

/// A read request: optional wildcard patterns over the structured fields,
/// an optional keyword, an optional time window `[after, before)` in
/// milliseconds, and pagination.
///
/// A missing pattern defaults to match-all (`"%%"`); a missing window bound
/// defaults to 0 (`after`) or the time of the call (`before`); pagination
/// defaults to offset 0, limit 50.
#[derive(Debug)]
pub struct Query {
    pub chat_type: Option<String>,
    pub owner_id: Option<String>,
    pub group_id: Option<String>,
    pub sender_id: Option<String>,
    pub sender_name: Option<String>,
    pub keyword: Option<String>,
    pub before: Option<i64>,
    pub after: Option<i64>,
    pub offset: Option<u64>,
    pub limit: Option<u32>,
}

/// The mathematical value of a [`Query`].
pub ghost struct QueryView {
    pub chat_type: Option<Seq<char>>,
    pub owner_id: Option<Seq<char>>,
    pub group_id: Option<Seq<char>>,
    pub sender_id: Option<Seq<char>>,
    pub sender_name: Option<Seq<char>>,
    pub keyword: Option<Seq<char>>,
    pub before: Option<i64>,
    pub after: Option<i64>,
    pub offset: Option<u64>,
    pub limit: Option<u32>,
}

/// A pattern filter, defaulted to match-all when absent.
pub open spec fn pattern_or_default(p: Option<Seq<char>>) -> Seq<char> {
    match p {
        Some(s) => s,
        None => "%%"@,
    }
}

impl View for Query {
    type V = QueryView;

    open spec fn view(&self) -> QueryView {
        QueryView {
            chat_type: view_opt_str(self.chat_type),
            owner_id: view_opt_str(self.owner_id),
            group_id: view_opt_str(self.group_id),
            sender_id: view_opt_str(self.sender_id),
            sender_name: view_opt_str(self.sender_name),
            keyword: view_opt_str(self.keyword),
            before: self.before,
            after: self.after,
            offset: self.offset,
            limit: self.limit,
        }
    }
}

/// The view of an optional string.
pub open spec fn view_opt_str(s: Option<String>) -> Option<Seq<char>> {
    match s {
        Some(v) => Some(v@),
        None => None,
    }
}

impl QueryView {
    /// The pagination offset clamped into `i64`; defaults to 0.
    pub open spec fn spec_get_offset(self) -> i64 {
        let o: u64 = match self.offset {
            Some(o) => o,
            None => 0,
        };
        if o > i64::MAX {
            i64::MAX
        } else {
            o as i64
        }
    }

    /// The pagination limit; defaults to 50.
    pub open spec fn spec_get_limit(self) -> i64 {
        match self.limit {
            Some(l) => l as i64,
            None => 50,
        }
    }
}

impl Default for Query {
    /// An unconstrained query: every filter defaulted.
    fn default() -> (r: Query)
        ensures
            r@.chat_type is None,
            r@.owner_id is None,
            r@.group_id is None,
            r@.sender_id is None,
            r@.sender_name is None,
            r@.keyword is None,
            r@.before is None,
            r@.after is None,
            r@.offset is None,
            r@.limit is None,
    {
        Query::new()
    }
}

impl Clone for Query {
    /// Cloning keeps the query's value.
    fn clone(&self) -> (r: Query)
        ensures
            r@ == self@,
    {
        Query {
            chat_type: clone_opt_str(&self.chat_type),
            owner_id: clone_opt_str(&self.owner_id),
            group_id: clone_opt_str(&self.group_id),
            sender_id: clone_opt_str(&self.sender_id),
            sender_name: clone_opt_str(&self.sender_name),
            keyword: clone_opt_str(&self.keyword),
            before: self.before,
            after: self.after,
            offset: self.offset,
            limit: self.limit,
        }
    }
}

/// A clone of an optional string, keeping its value.
fn clone_opt_str(s: &Option<String>) -> (r: Option<String>)
    ensures
        view_opt_str(r) == view_opt_str(*s),
{
    match s {
        Some(v) => Some(v.clone()),
        None => None,
    }
}

impl Query {
    /// An unconstrained query: every filter defaulted.
    pub fn new() -> (r: Query)
        ensures
            r@.chat_type is None,
            r@.owner_id is None,
            r@.group_id is None,
            r@.sender_id is None,
            r@.sender_name is None,
            r@.keyword is None,
            r@.before is None,
            r@.after is None,
            r@.offset is None,
            r@.limit is None,
    {
        Query {
            chat_type: None,
            owner_id: None,
            group_id: None,
            sender_id: None,
            sender_name: None,
            keyword: None,
            before: None,
            after: None,
            offset: None,
            limit: None,
        }
    }

    /// The chat_type pattern, defaulted to match-all.
    pub fn get_chat_type<'a>(&'a self) -> (r: &'a str)
        ensures
            r@ == pattern_or_default(self@.chat_type),
    {
        match &self.chat_type {
            Some(s) => s.as_str(),
            None => "%%",
        }
    }

    /// The owner_id pattern, defaulted to match-all.
    pub fn get_owner_id<'a>(&'a self) -> (r: &'a str)
        ensures
            r@ == pattern_or_default(self@.owner_id),
    {
        match &self.owner_id {
            Some(s) => s.as_str(),
            None => "%%",
        }
    }

    /// The group_id pattern, defaulted to match-all.
    pub fn get_group_id<'a>(&'a self) -> (r: &'a str)
        ensures
            r@ == pattern_or_default(self@.group_id),
    {
        match &self.group_id {
            Some(s) => s.as_str(),
            None => "%%",
        }
    }

    /// The sender_id pattern, defaulted to match-all.
    pub fn get_sender_id<'a>(&'a self) -> (r: &'a str)
        ensures
            r@ == pattern_or_default(self@.sender_id),
    {
        match &self.sender_id {
            Some(s) => s.as_str(),
            None => "%%",
        }
    }

    /// The sender_name pattern, defaulted to match-all.
    pub fn get_sender_name<'a>(&'a self) -> (r: &'a str)
        ensures
            r@ == pattern_or_default(self@.sender_name),
    {
        match &self.sender_name {
            Some(s) => s.as_str(),
            None => "%%",
        }
    }

    /// The pagination offset clamped into `i64`; defaults to 0.
    pub fn get_offset(&self) -> (r: i64)
        ensures
            r == self@.spec_get_offset(),
            r >= 0,
    {
        let off: u64 = match self.offset {
            Some(o) => o,
            None => 0,
        };
        if off > i64::MAX as u64 {
            i64::MAX
        } else {
            off as i64
        }
    }

    /// The pagination limit; defaults to 50.
    pub fn get_limit(&self) -> (r: i64)
        ensures
            r == self@.spec_get_limit(),
            r >= 0,
    {
        match self.limit {
            Some(l) => l as i64,
            None => 50,
        }
    }
}

} // verus!
