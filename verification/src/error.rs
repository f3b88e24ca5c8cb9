use vstd::prelude::*;

verus! {

/// Everything that can go wrong while encoding a value as JSON.
///
/// `InvalidKey` and `NonFiniteFloat` are raised by the encoding engine
/// itself; `Custom` carries a message raised by a caller-supplied driver,
/// and `Io` carries the description of a downstream sink failure.
#[derive(Debug, PartialEq, Eq)]
pub enum Error {
    InvalidKey,
    NonFiniteFloat,
    Custom(String),
    Io(String),
}

impl Error {
    /// Wrap an arbitrary caller-raised failure message.
    pub fn custom(msg: String) -> (r: Error)
        ensures
            r == Error::Custom(msg),
    {
        Error::Custom(msg)
    }

    /// A human-readable description of the error.
    pub fn message(&self) -> (r: String)
        ensures
            match self {
                Error::InvalidKey => r@ == "Invalid key type for JSON"@,
                Error::NonFiniteFloat => r@ == "non-finite float is not allowed in JSON."@,
                Error::Custom(s) => r@ == s@,
                Error::Io(s) => r@ == s@,
            },
    {
        match self {
            Error::InvalidKey => "Invalid key type for JSON".to_owned(),
            Error::NonFiniteFloat => "non-finite float is not allowed in JSON.".to_owned(),
            Error::Custom(s) => s.clone(),
            Error::Io(s) => s.clone(),
        }
    }
}

} // verus!
