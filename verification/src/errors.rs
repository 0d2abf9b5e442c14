//! The errors of the library and their messages.
use vstd::prelude::*;

verus! {

/// An item could not be converted.
#[derive(Debug, Clone, Copy)]
pub struct ConvertError;

impl ConvertError {
    /// The error's message.
    pub fn to_string(&self) -> (r: String)
        ensures
            r@ == "couldn't convert an item"@,
    {
        "couldn't convert an item".to_owned()
    }
}

/// Why a struct definition does not describe a record type.
#[derive(Debug, Clone, Copy, PartialEq, Eq)]
pub enum DeriveError {
    /// The `prefix_name` argument is a literal other than a string.
    PrefixNotString,
    /// The struct's fields are not named.
    UnnamedFields,
    /// No field is marked `#[redorm(key)]`.
    NoKey,
    /// A field's type is not a path.
    UnsupportedType,
    /// A `DateTime` field's type has empty angle brackets.
    NoGenericArgument,
    /// A `DateTime` field's type names no time zone type.
    TimezoneNotFound,
}

impl DeriveError {
    /// The error's message.
    pub fn message(&self) -> (r: String)
        ensures
            r@ == match self {
                DeriveError::PrefixNotString => "prefix_name must be a string"@,
                DeriveError::UnnamedFields => "This only supports named fields"@,
                DeriveError::NoKey => "No key specified"@,
                DeriveError::UnsupportedType => "Unimplemented"@,
                DeriveError::NoGenericArgument => "DateTime has no generic argument"@,
                DeriveError::TimezoneNotFound => "DateTime timezone ident not found"@,
            },
    {
        match self {
            DeriveError::PrefixNotString => "prefix_name must be a string".to_owned(),
            DeriveError::UnnamedFields => "This only supports named fields".to_owned(),
            DeriveError::NoKey => "No key specified".to_owned(),
            DeriveError::UnsupportedType => "Unimplemented".to_owned(),
            DeriveError::NoGenericArgument => "DateTime has no generic argument".to_owned(),
            DeriveError::TimezoneNotFound => "DateTime timezone ident not found".to_owned(),
        }
    }
}

} // verus!
