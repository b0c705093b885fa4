use vstd::prelude::*;

verus! {

/// What can go wrong while building values, compiling or rendering.
#[derive(Debug, Clone, PartialEq, Eq)]
pub enum Error {
    /// A value had no representation among the kinds of `Data`.
    UnsupportedType,
    /// Text that was not valid UTF-8.
    InvalidStr,
    /// A value was expected on the encoder's stack and none was there.
    MissingElements,
    /// A map key did not encode to a string.
    KeyIsNotString,
    /// A template file could not be read; the message says why.
    IoError(String),
    /// A close tag did not match the innermost open section, or a section was never closed.
    UnbalancedSection,
    /// A value of the wrong kind met a name lookup or a section.
    UnexpectedValue,
    /// Partials or callbacks nested deeper than the renderer allows.
    TooDeep,
}

impl Error {
    /// A short account of the error.
    pub fn description(&self) -> (r: String)
        ensures
            self is IoError ==> r@ == self->IoError_0@,
            self is UnsupportedType ==> r@ == "unsupported type"@,
            self is InvalidStr ==> r@ == "invalid string"@,
            self is MissingElements ==> r@ == "no elements in value"@,
            self is KeyIsNotString ==> r@ == "key is not a string"@,
            self is UnbalancedSection ==> r@ == "unbalanced section"@,
            self is UnexpectedValue ==> r@ == "unexpected value"@,
            self is TooDeep ==> r@ == "nesting too deep"@,
    {
        match self {
            Error::UnsupportedType => String::from_str("unsupported type"),
            Error::InvalidStr => String::from_str("invalid string"),
            Error::MissingElements => String::from_str("no elements in value"),
            Error::KeyIsNotString => String::from_str("key is not a string"),
            Error::IoError(msg) => msg.clone(),
            Error::UnbalancedSection => String::from_str("unbalanced section"),
            Error::UnexpectedValue => String::from_str("unexpected value"),
            Error::TooDeep => String::from_str("nesting too deep"),
        }
    }
}

} // verus!
