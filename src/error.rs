use vstd::prelude::*;

verus! {

/// The kind of a failure reported by this library.
#[derive(PartialEq, Eq, Structural, Clone, Copy, Debug)]
pub enum ErrorKind {
    /// A source cannot attempt acquisition (a missing tool, for example).
    Other,
    /// A source attempted acquisition and it failed, or every source failed.
    Credential,
    /// A value could not be converted.
    DataConversion,
}

/// A failure: its kind and a message that holds no secret.
#[derive(Debug)]
pub struct CredentialError {
    pub kind: ErrorKind,
    pub message: String,
}

impl CredentialError {
    pub fn new(kind: ErrorKind, message: String) -> (r: CredentialError)
        ensures
            r.kind == kind,
            r.message == message,
    {
        CredentialError { kind, message }
    }

    /// The text of the failure.
    pub fn to_string(&self) -> (r: String)
        ensures
            r@ == self.message@,
    {
        self.message.clone()
    }
}

} // verus!
