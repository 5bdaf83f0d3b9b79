//! Arguments of field extraction requests (`field`, `field[1]`,
//! `field[key]`) and their validation against what an extractor accepts.
use vstd::prelude::*;

verus! {

/// The kind of argument an extractor accepts.
#[derive(Clone, Copy, Debug, PartialEq, Eq, Structural)]
pub enum ExtractArgType {
    NoArg,
    OptionalIndex,
    OptionalKey,
    RequiredIndex,
    RequiredKey,
}

/// The argument of one extraction request.
#[derive(Clone, Copy, Debug, PartialEq, Eq)]
pub enum ExtractFieldRequestArg<'a> {
    /// Invoked as plain `field_name`.
    NoArg,
    /// Invoked as e.g. `field_name[1]`.
    Int(u64),
    /// Invoked as e.g. `field_name[foo]`; the bytes of the key.
    String(&'a [u8]),
}

/// Why an argument does not suit an extractor.
#[derive(Clone, Copy, Debug, PartialEq, Eq, Structural)]
pub enum ArgError {
    Missing,
    Unexpected,
    ExpectedString,
    ExpectedInt,
}

impl ArgError {
    /// A description of the error.
    pub fn message(&self) -> (r: &'static str)
        ensures
            *self == ArgError::Missing ==> r@ == "required argument missing"@,
            *self == ArgError::Unexpected ==> r@ == "unexpected argument"@,
            *self == ArgError::ExpectedString ==> r@ == "expected string argument"@,
            *self == ArgError::ExpectedInt ==> r@ == "expected int argument"@,
    {
        match self {
            ArgError::Missing => "required argument missing",
            ArgError::Unexpected => "unexpected argument",
            ArgError::ExpectedString => "expected string argument",
            ArgError::ExpectedInt => "expected int argument",
        }
    }
}

/// `t` accepts a missing argument.
pub open spec fn accepts_none(t: ExtractArgType) -> bool {
    t == ExtractArgType::NoArg || t == ExtractArgType::OptionalIndex || t
        == ExtractArgType::OptionalKey
}

/// `t` accepts an integer argument.
pub open spec fn accepts_index(t: ExtractArgType) -> bool {
    t == ExtractArgType::OptionalIndex || t == ExtractArgType::RequiredIndex
}

/// `t` accepts a string argument.
pub open spec fn accepts_key(t: ExtractArgType) -> bool {
    t == ExtractArgType::OptionalKey || t == ExtractArgType::RequiredKey
}

impl<'a> ExtractFieldRequestArg<'a> {
    /// The argument described by the raw request: whether one is present, the
    /// key if one was given, the index otherwise.
    pub fn from_raw(arg_present: bool, arg_key: Option<&'a [u8]>, arg_index: u64) -> (r: Self)
        ensures
            !arg_present ==> r == ExtractFieldRequestArg::<'a>::NoArg,
            arg_present && arg_key is None ==> r == ExtractFieldRequestArg::<'a>::Int(arg_index),
            arg_present ==> (arg_key matches Some(k) ==> r == ExtractFieldRequestArg::String(k)),
    {
        if !arg_present {
            return ExtractFieldRequestArg::NoArg;
        }
        match arg_key {
            None => ExtractFieldRequestArg::Int(arg_index),
            Some(k) => ExtractFieldRequestArg::String(k),
        }
    }

    /// Checks the argument against what the extractor accepts, returning it
    /// unchanged when it suits.
    pub fn key(self, arg_type: ExtractArgType) -> (r: Result<Self, ArgError>)
        ensures
            match self {
                ExtractFieldRequestArg::NoArg => if accepts_none(arg_type) {
                    r == Ok::<Self, ArgError>(self)
                } else {
                    r == Err::<Self, ArgError>(ArgError::Missing)
                },
                ExtractFieldRequestArg::Int(_) => if accepts_index(arg_type) {
                    r == Ok::<Self, ArgError>(self)
                } else if arg_type == ExtractArgType::NoArg {
                    r == Err::<Self, ArgError>(ArgError::Unexpected)
                } else {
                    r == Err::<Self, ArgError>(ArgError::ExpectedString)
                },
                ExtractFieldRequestArg::String(_) => if accepts_key(arg_type) {
                    r == Ok::<Self, ArgError>(self)
                } else if arg_type == ExtractArgType::NoArg {
                    r == Err::<Self, ArgError>(ArgError::Unexpected)
                } else {
                    r == Err::<Self, ArgError>(ArgError::ExpectedInt)
                },
            },
    {
        match self {
            ExtractFieldRequestArg::NoArg => match arg_type {
                ExtractArgType::NoArg | ExtractArgType::OptionalIndex
                | ExtractArgType::OptionalKey => Ok(self),
                ExtractArgType::RequiredIndex | ExtractArgType::RequiredKey => Err(
                    ArgError::Missing,
                ),
            },
            ExtractFieldRequestArg::Int(_) => match arg_type {
                ExtractArgType::NoArg => Err(ArgError::Unexpected),
                ExtractArgType::OptionalIndex | ExtractArgType::RequiredIndex => Ok(self),
                ExtractArgType::OptionalKey | ExtractArgType::RequiredKey => Err(
                    ArgError::ExpectedString,
                ),
            },
            ExtractFieldRequestArg::String(_) => match arg_type {
                ExtractArgType::NoArg => Err(ArgError::Unexpected),
                ExtractArgType::OptionalIndex | ExtractArgType::RequiredIndex => Err(
                    ArgError::ExpectedInt,
                ),
                ExtractArgType::OptionalKey | ExtractArgType::RequiredKey => Ok(self),
            },
        }
    }
}

} // verus!
