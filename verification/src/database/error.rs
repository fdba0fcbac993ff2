use vstd::prelude::*;

verus! {

/// Why the frame store gave no answer.
///
/// The first four tell at which stage of a query the store became
/// unavailable, each with the text of the layer that failed.
#[derive(Debug, PartialEq, Eq)]
pub enum DatabaseError {
    PoolRetrievalError(String),
    ConnectionError(String),
    QueryPreparationError(String),
    QueryExecutionError(String),
    /// The store answered, and holds no frame at all.
    EmptyStore,
}

/// What is said of a store that holds no frame.
pub const EMPTY_STORE: &'static str = "パケットが存在しません";

impl DatabaseError {
    /// Whether `text` is the diagnostic that the failure carries.
    pub open spec fn described_by(self, text: String) -> bool {
        match self {
            DatabaseError::PoolRetrievalError(why) => text == why,
            DatabaseError::ConnectionError(why) => text == why,
            DatabaseError::QueryPreparationError(why) => text == why,
            DatabaseError::QueryExecutionError(why) => text == why,
            DatabaseError::EmptyStore => text@ == EMPTY_STORE@,
        }
    }

    /// The diagnostic that the failure carries.
    pub fn diagnostic(self) -> (text: String)
        ensures
            self.described_by(text),
    {
        match self {
            DatabaseError::PoolRetrievalError(why) => why,
            DatabaseError::ConnectionError(why) => why,
            DatabaseError::QueryPreparationError(why) => why,
            DatabaseError::QueryExecutionError(why) => why,
            DatabaseError::EmptyStore => EMPTY_STORE.to_owned(),
        }
    }
}

} // verus!
