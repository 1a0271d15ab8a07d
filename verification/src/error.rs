//! The failures that a request can end in.

use vstd::prelude::*;
use vstd::string::*;

verus! {

/// A failure of an upload or a download. Each variant but the last carries
/// the text of the underlying failure.
#[derive(Debug, PartialEq, Eq)]
pub enum CustomError {
    /// Reading or writing the output file failed.
    IoError(String),
    /// The multipart body was malformed.
    ParseError(String),
    /// No storage connection could be had from the pool.
    ConnectionError(String),
    /// Handing a message to the synchronization channel failed.
    SendError(String),
    /// Taking a message from the synchronization channel failed.
    RecvError(String),
    /// A storage insert or select failed.
    DatabaseError(String),
    /// A field of the multipart body carried no content disposition.
    NullError,
}

/// The text that describes an error: a prefix that names the kind of
/// failure, then the text of the underlying failure.
pub open spec fn spec_message(error: CustomError) -> Seq<char> {
    match error {
        CustomError::IoError(e) => "I/O Error: "@ + e@,
        CustomError::ParseError(e) => "Parse error: "@ + e@,
        CustomError::ConnectionError(e) => "Connection error: "@ + e@,
        CustomError::SendError(e) => "Send error: "@ + e@,
        CustomError::RecvError(e) => "Receive error: "@ + e@,
        CustomError::DatabaseError(e) => "Database error: "@ + e@,
        CustomError::NullError => "Value is Null"@,
    }
}

fn prefixed(prefix: &str, detail: &String) -> (text: String)
    ensures
        text@ == prefix@ + detail@,
{
    let mut text = String::from_str(prefix);
    text.append(detail.as_str());
    text
}

impl CustomError {
    /// The human-readable text of the error.
    pub fn to_message(&self) -> (text: String)
        ensures
            text@ == spec_message(*self),
    {
        match self {
            CustomError::IoError(e) => prefixed("I/O Error: ", e),
            CustomError::ParseError(e) => prefixed("Parse error: ", e),
            CustomError::ConnectionError(e) => prefixed("Connection error: ", e),
            CustomError::SendError(e) => prefixed("Send error: ", e),
            CustomError::RecvError(e) => prefixed("Receive error: ", e),
            CustomError::DatabaseError(e) => prefixed("Database error: ", e),
            CustomError::NullError => String::from_str("Value is Null"),
        }
    }

    /// A copy of the error.
    pub fn duplicate(&self) -> (copy: Self)
        ensures
            copy == *self,
    {
        match self {
            CustomError::IoError(e) => CustomError::IoError(e.clone()),
            CustomError::ParseError(e) => CustomError::ParseError(e.clone()),
            CustomError::ConnectionError(e) => CustomError::ConnectionError(e.clone()),
            CustomError::SendError(e) => CustomError::SendError(e.clone()),
            CustomError::RecvError(e) => CustomError::RecvError(e.clone()),
            CustomError::DatabaseError(e) => CustomError::DatabaseError(e.clone()),
            CustomError::NullError => CustomError::NullError,
        }
    }
}

} // verus!
