use vstd::prelude::*;

verus! {

/// The one failure this library reports: the local store, or the remote
/// behind a client, could not be read or written.
#[derive(Debug, Clone, Copy, PartialEq, Eq, Structural)]
pub enum Error {
    StoreError,
}

impl Error {
    /// The text shown to a person for this error.
    pub fn message(&self) -> (text: String)
        ensures
            text@ == "Erroring storing"@,
    {
        match self {
            Error::StoreError => "Erroring storing".to_owned(),
        }
    }
}

} // verus!
