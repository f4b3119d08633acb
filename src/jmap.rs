//! Small JMAP request and response types.
use vstd::prelude::*;

verus! {

/// Operator of a JMAP filter that combines conditions.
#[derive(Debug, Clone, Copy, PartialEq, Eq, Structural)]
pub enum Operator {
    And,
    Or,
    Not,
}

/// Result of a JMAP query.
#[derive(Debug, Clone)]
pub struct QueryResponse {
    pub account_id: u64,
    pub query_state: String,
    pub can_calculate_changes: bool,
    pub position: i32,
    pub ids: Vec<u64>,
    pub total: Option<usize>,
    pub limit: Option<usize>,
    pub is_immutable: bool,
}

/// Extra arguments of a mailbox set request.
#[derive(Debug, Clone, Copy, PartialEq, Eq, Default)]
pub struct SetArguments {
    pub on_destroy_remove_emails: Option<bool>,
}

/// Properties an email query can sort on.
#[derive(Debug, Clone, PartialEq, Eq)]
pub enum JMAPMailComparator {
    ReceivedAt,
    Size,
    From,
    To,
    Subject,
    SentAt,
    HasKeyword(String),
    AllInThreadHaveKeyword(String),
    SomeInThreadHaveKeyword(String),
}

/// Extra arguments of an email query.
#[derive(Debug, Clone, Copy, PartialEq, Eq)]
pub struct JMAPMailQueryArguments {
    pub collapse_threads: bool,
}

} // verus!
