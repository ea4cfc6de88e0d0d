//! Errors of the player service, and how they are reported.
use vstd::prelude::*;
use vstd::string::*;

verus! {

/// What went wrong in the player store.
#[derive(Debug)]
pub enum SqliteError {
    /// No row matched the query.
    NotFound,
    /// Any other failure, with the store's message.
    Other(String),
}

#[derive(Debug)]
pub enum ServiceError {
    Internal,
    PlayerAlreadyExist,
    Sqlite(SqliteError),
    ForbiddenQuery,
    Transaction,
}

#[derive(Debug, Clone, Copy, PartialEq, Eq, Structural)]
pub enum ErrorCode {
    NoError,
    UnspecifiedError,
}

/// The body of an error response.
#[derive(Debug)]
pub struct ApiResponseError {
    pub error_message: String,
    pub error_code: ErrorCode,
}

impl ServiceError {
    pub open spec fn message_text(&self) -> Seq<char> {
        match self {
            ServiceError::Internal => "Internal error"@,
            ServiceError::PlayerAlreadyExist => "Player already exists"@,
            ServiceError::Sqlite(_) => "Sqlite internal error"@,
            ServiceError::ForbiddenQuery => "Query forbidden error"@,
            ServiceError::Transaction => "Transaction error"@,
        }
    }

    /// The message shown to the client.
    pub fn error_message(&self) -> (m: String)
        ensures
            m@ == self.message_text(),
    {
        match self {
            ServiceError::Internal => String::from_str("Internal error"),
            ServiceError::PlayerAlreadyExist => String::from_str("Player already exists"),
            ServiceError::Sqlite(_) => String::from_str("Sqlite internal error"),
            ServiceError::ForbiddenQuery => String::from_str("Query forbidden error"),
            ServiceError::Transaction => String::from_str("Transaction error"),
        }
    }

    /// The HTTP status of the response: 422 when the player already exists, 403 for a
    /// forbidden query, 500 otherwise.
    pub fn status_code(&self) -> (c: u16)
        ensures
            c == match self {
                ServiceError::PlayerAlreadyExist => 422u16,
                ServiceError::ForbiddenQuery => 403u16,
                _ => 500u16,
            },
    {
        match self {
            ServiceError::Internal => 500,
            ServiceError::PlayerAlreadyExist => 422,
            ServiceError::Sqlite(_) => 500,
            ServiceError::ForbiddenQuery => 403,
            ServiceError::Transaction => 500,
        }
    }

    /// The body of the error response.
    pub fn response_body(&self) -> (b: ApiResponseError)
        ensures
            b.error_message@ == self.message_text(),
            b.error_code == ErrorCode::UnspecifiedError,
    {
        ApiResponseError { error_message: self.error_message(), error_code: ErrorCode::UnspecifiedError }
    }
}

} // verus!
