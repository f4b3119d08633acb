//! Identifiers, tags and query building blocks of the document store.
use vstd::prelude::*;

verus! {

pub type AccountId = u32;

pub type CollectionId = u8;

pub type DocumentId = u32;

pub type FieldId = u8;

pub type TagId = u8;

/// Errors of the document store.
#[derive(Debug, Clone, PartialEq, Eq)]
pub enum StoreError {
    InternalError(String),
    SerializeError(String),
    ParseError,
    DataCorruption,
    NotFound,
    InvalidArgument,
}

/// A collection of one account.
#[derive(Debug, Clone, Copy, PartialEq, Eq, Hash, Structural)]
pub struct BaseId {
    pub account_id: AccountId,
    pub collection_id: CollectionId,
}

impl BaseId {
    pub fn new(account_id: AccountId, collection_id: CollectionId) -> (r: BaseId)
        ensures
            r.account_id == account_id,
            r.collection_id == collection_id,
    {
        BaseId { account_id, collection_id }
    }
}

/// A tag set on a document: a static tag, another document's id, or text.
#[derive(Debug, Clone, PartialEq, Eq)]
pub enum Tag {
    Static(TagId),
    Id(DocumentId),
    Text(String),
}

#[derive(Debug, Clone, Copy, PartialEq, Eq, Structural)]
pub enum ComparisonOperator {
    LowerThan,
    LowerEqualThan,
    GreaterThan,
    GreaterEqualThan,
    Equal,
}

#[derive(Debug, Clone, Copy, PartialEq, Eq, Structural)]
pub enum LogicalOperator {
    And,
    Or,
    Not,
}

/// Sort order of a query on one field.
#[derive(Debug, Clone, Copy, PartialEq, Eq, Structural)]
pub struct Comparator {
    pub field: FieldId,
    pub ascending: bool,
}

impl Comparator {
    pub fn ascending(field: FieldId) -> (r: Comparator)
        ensures
            r == (Comparator { field, ascending: true }),
    {
        Comparator { field, ascending: true }
    }

    pub fn descending(field: FieldId) -> (r: Comparator)
        ensures
            r == (Comparator { field, ascending: false }),
    {
        Comparator { field, ascending: false }
    }
}

/// Language of a full-text query.
#[derive(Debug, Clone, Copy, PartialEq, Eq, Structural)]
pub enum Language {
    Unknown,
    English,
}

/// A full-text query: the text, its language, and whether it asks for the
/// exact phrase.
#[derive(Debug, Clone)]
pub struct TextQuery {
    pub text: String,
    pub language: Language,
    pub match_phrase: bool,
}

/// `s` starts and ends with the character `q`.
pub open spec fn quoted_by(s: Seq<char>, q: char) -> bool {
    s.len() > 0 && s[0] == q && s.last() == q
}

impl TextQuery {
    /// A query for `text`, which asks for the exact phrase when the text is
    /// enclosed in double or single quotes.
    pub fn query(text: &str, language: Language) -> (r: TextQuery)
        ensures
            r.text@ == text@,
            r.language == language,
            r.match_phrase == (quoted_by(text@, '"') || quoted_by(text@, '\'')),
    {
        let n = text.unicode_len();
        let match_phrase = if n == 0 {
            false
        } else {
            let first = text.get_char(0);
            let last = text.get_char(n - 1);
            (first == '"' && last == '"') || (first == '\'' && last == '\'')
        };
        TextQuery { text: text.to_owned(), language, match_phrase }
    }

    pub fn query_english(text: &str) -> (r: TextQuery)
        ensures
            r.text@ == text@,
            r.language == Language::English,
            r.match_phrase == (quoted_by(text@, '"') || quoted_by(text@, '\'')),
    {
        TextQuery::query(text, Language::English)
    }
}

} // verus!
