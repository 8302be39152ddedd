use vstd::prelude::*;

verus! {

/// Why the payload of one identifier could not be fetched.
#[derive(Debug, Clone, PartialEq, Eq)]
pub enum FetchError {
    /// Transport or connection failure, with the client's description.
    Request(String),
    /// The server answered with this non-success status code.
    Status(u16),
    /// The response body was not a structured document.
    PayloadParse(String),
}

/// Why the labeled field could not be read out of a payload.
#[derive(Debug, Clone, Copy, PartialEq, Eq)]
pub enum ExtractError {
    /// The payload has no field named `topics`.
    FieldMissing,
    /// The field is present but is not an array.
    FieldType,
    /// An element of the array is not a string.
    ElementType,
}

/// The cause of a failed identifier, from either stage.
#[derive(Debug, Clone, PartialEq, Eq)]
pub enum Cause {
    Fetch(FetchError),
    Extract(ExtractError),
}

/// The single error that ends the whole pipeline: one identifier, one cause.
#[derive(Debug, Clone, PartialEq, Eq)]
pub struct TopicError {
    pub repo: String,
    pub cause: Cause,
}

} // verus!

verus! {

/// The request URL for an identifier could not be formed.
#[derive(Debug, Clone, Copy, PartialEq, Eq)]
pub struct InvalidUrl;

} // verus!
