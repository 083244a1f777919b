//! The errors of query analysis and pruning.
use vstd::prelude::*;

verus! {

/// Why a query text cannot back a table, as a plain value.
pub enum QueryFault {
    /// The text holds a block string that the parser cannot unquote: its
    /// indentation ends inside a white-space character.
    BlockIndent,
    /// The text is not a GraphQL document; with the parser's message.
    Syntax(Seq<char>),
    /// The document holds no `query` operation.
    NoQueryOperation,
    /// The document holds more than one `query` operation.
    SeveralQueryOperations,
    /// The `query` operation has no name.
    MissingOperationName,
    /// The operation's top-level selection set does not hold exactly one item.
    TopLevelCount,
    /// The operation's one top-level selection is not a field.
    FieldExpected,
    /// A selection is a spread of a named fragment.
    FragmentSpread,
}

/// Why a query text cannot back a table. `Syntax` carries the parser's message.
#[derive(Debug, Clone, PartialEq, Eq)]
pub enum QueryError {
    BlockIndent,
    Syntax(String),
    NoQueryOperation,
    SeveralQueryOperations,
    MissingOperationName,
    TopLevelCount,
    FieldExpected,
    FragmentSpread,
}

impl View for QueryError {
    type V = QueryFault;

    open spec fn view(&self) -> QueryFault {
        match self {
            QueryError::BlockIndent => QueryFault::BlockIndent,
            QueryError::Syntax(m) => QueryFault::Syntax(m@),
            QueryError::NoQueryOperation => QueryFault::NoQueryOperation,
            QueryError::SeveralQueryOperations => QueryFault::SeveralQueryOperations,
            QueryError::MissingOperationName => QueryFault::MissingOperationName,
            QueryError::TopLevelCount => QueryFault::TopLevelCount,
            QueryError::FieldExpected => QueryFault::FieldExpected,
            QueryError::FragmentSpread => QueryFault::FragmentSpread,
        }
    }
}

impl QueryError {
    /// The text of the message; that of `Syntax` is the parser's.
    pub open spec fn fixed_message(self) -> Seq<char> {
        match self {
            QueryError::BlockIndent => "Block string indentation ends inside a character"@,
            QueryError::Syntax(m) => m@,
            QueryError::NoQueryOperation => "No query operation found"@,
            QueryError::SeveralQueryOperations => "Exactly one query operation expected"@,
            QueryError::MissingOperationName => "Missing operation name"@,
            QueryError::TopLevelCount => "Exactly one operation expected"@,
            QueryError::FieldExpected => "Field expected"@,
            QueryError::FragmentSpread => "FragmentSpread not supported"@,
        }
    }

    /// A message for the caller.
    pub fn message(&self) -> (text: String)
        ensures
            text@ == self.fixed_message(),
    {
        match self {
            QueryError::BlockIndent => "Block string indentation ends inside a character".to_owned(),
            QueryError::Syntax(m) => m.clone(),
            QueryError::NoQueryOperation => "No query operation found".to_owned(),
            QueryError::SeveralQueryOperations => "Exactly one query operation expected".to_owned(),
            QueryError::MissingOperationName => "Missing operation name".to_owned(),
            QueryError::TopLevelCount => "Exactly one operation expected".to_owned(),
            QueryError::FieldExpected => "Field expected".to_owned(),
            QueryError::FragmentSpread => "FragmentSpread not supported".to_owned(),
        }
    }
}

} // verus!
