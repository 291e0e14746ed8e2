//! Errors of the Clarity type checker.
//!
//! The errors name type signatures, tuple signatures and values. These are parameters here: `S`,
//! `T` and `V`.

use vstd::prelude::*;

use crate::text::{quote, quoted};

verus! {

/// An error of the interpreter.
#[derive(Debug, PartialEq, Eq)]
pub enum InterpreterError {
    Expect(String),
}

/// An error of reading or running Clarity.
#[derive(Debug, PartialEq, Eq)]
pub enum VmError {
    Interpreter(InterpreterError),
}

impl From<InterpreterError> for VmError {
    fn from(err: InterpreterError) -> Self {
        VmError::Interpreter(err)
    }
}

impl vstd::std_specs::convert::FromSpecImpl<InterpreterError> for VmError {
    open spec fn obeys_from_spec() -> bool {
        true
    }

    open spec fn from_spec(err: InterpreterError) -> Self {
        VmError::Interpreter(err)
    }
}

/// An error of cost computation.
#[derive(Debug, PartialEq, Eq)]
pub enum CostErrors {
    InterpreterFailure,
    Expect(String),
}

/// Why a type could not be built.
pub enum TypeImplError<S, T, V> {
    SupertypeTooLarge,
    ListTypesMustMatch,
    TypeValueError(S, V),
    NoSuchTupleField(String, T),
}

/// What the type checker objects to.
#[derive(Debug, PartialEq)]
pub enum CheckErrors<S, T, V> {
    ValueTooLarge,
    ValueOutOfBounds,
    TypeSignatureTooDeep,
    SupertypeTooLarge,
    /// Unexpected behaviour of the interpreter.
    Expects(String),
    ListTypesMustMatch,
    TypeError(S, S),
    TypeValueError(S, V),
    CouldNotDetermineSerializationType,
    CouldNotDetermineType,
    NoSuchTupleField(String, T),
    EmptyTuplesNotAllowed,
    NameAlreadyUsed(String),
    InvalidCharactersDetected,
    InvalidUTF8Encoding,
}

/// An error of the type checker.
#[derive(Debug, PartialEq)]
pub struct CheckError<S, T, V> {
    pub err: CheckErrors<S, T, V>,
}

impl<S, T, V> CheckError<S, T, V> {
    pub fn new(err: CheckErrors<S, T, V>) -> (error: CheckError<S, T, V>)
        ensures
            error.err == err,
    {
        CheckError { err }
    }
}

impl<S, T, V> From<CostErrors> for CheckErrors<S, T, V> {
    fn from(err: CostErrors) -> (error: Self)
        ensures
            match err {
                CostErrors::InterpreterFailure => error matches CheckErrors::Expects(reason)
                    && reason@ == "Unexpected interpreter failure in cost computation"@,
                CostErrors::Expect(reason) => error == CheckErrors::<S, T, V>::Expects(reason),
            },
    {
        match err {
            CostErrors::InterpreterFailure => CheckErrors::Expects(
                "Unexpected interpreter failure in cost computation".to_owned(),
            ),
            CostErrors::Expect(reason) => CheckErrors::Expects(reason),
        }
    }
}

/// What `from` gives is stated by its own contract: a text has no value that a specification could
/// name before it is made.
impl<S, T, V> vstd::std_specs::convert::FromSpecImpl<CostErrors> for CheckErrors<S, T, V> {
    open spec fn obeys_from_spec() -> bool {
        false
    }

    open spec fn from_spec(err: CostErrors) -> Self {
        arbitrary()
    }
}

/// A variant of an enum with one field, written out.
pub open spec fn variant_of_one(name: Seq<char>, field: Seq<char>) -> Seq<char> {
    name + "("@ + field + ")"@
}

/// A variant of an enum with two fields, written out.
pub open spec fn variant_of_two(name: Seq<char>, first: Seq<char>, second: Seq<char>) -> Seq<char> {
    name + "("@ + first + ", "@ + second + ")"@
}

/// Writes a variant of an enum with one field that reads as given.
pub fn write_one(name: &str, field: &str) -> (written: String)
    ensures
        written@ == variant_of_one(name@, field@),
{
    let mut written: String = name.to_owned();
    written.append("(");
    written.append(field);
    written.append(")");
    written
}

/// Writes a variant of an enum with two fields that read as given.
pub fn write_two(name: &str, first: &str, second: &str) -> (written: String)
    ensures
        written@ == variant_of_two(name@, first@, second@),
{
    let mut written: String = name.to_owned();
    written.append("(");
    written.append(first);
    written.append(", ");
    written.append(second);
    written.append(")");
    written
}

/// How an error reads of which the signatures and values are given as they read.
pub open spec fn check_errors_text(err: CheckErrors<String, String, String>) -> Seq<char> {
    match err {
        CheckErrors::ValueTooLarge => "ValueTooLarge"@,
        CheckErrors::ValueOutOfBounds => "ValueOutOfBounds"@,
        CheckErrors::TypeSignatureTooDeep => "TypeSignatureTooDeep"@,
        CheckErrors::SupertypeTooLarge => "SupertypeTooLarge"@,
        CheckErrors::Expects(reason) => variant_of_one("Expects"@, quoted(reason@)),
        CheckErrors::ListTypesMustMatch => "ListTypesMustMatch"@,
        CheckErrors::TypeError(expected, found) => variant_of_two(
            "TypeError"@,
            expected@,
            found@,
        ),
        CheckErrors::TypeValueError(expected, value) => variant_of_two(
            "TypeValueError"@,
            expected@,
            value@,
        ),
        CheckErrors::CouldNotDetermineSerializationType => "CouldNotDetermineSerializationType"@,
        CheckErrors::CouldNotDetermineType => "CouldNotDetermineType"@,
        CheckErrors::NoSuchTupleField(name, tuple) => variant_of_two(
            "NoSuchTupleField"@,
            quoted(name@),
            tuple@,
        ),
        CheckErrors::EmptyTuplesNotAllowed => "EmptyTuplesNotAllowed"@,
        CheckErrors::NameAlreadyUsed(name) => variant_of_one("NameAlreadyUsed"@, quoted(name@)),
        CheckErrors::InvalidCharactersDetected => "InvalidCharactersDetected"@,
        CheckErrors::InvalidUTF8Encoding => "InvalidUTF8Encoding"@,
    }
}

/// Whether `read` is `err` with each signature, tuple signature and value as the functions write
/// it.
pub open spec fn reads_as<S, T, V, A: Fn(&S) -> String, B: Fn(&T) -> String, C: Fn(&V) -> String>(
    err: CheckErrors<S, T, V>,
    signature: A,
    tuple: B,
    value: C,
    read: CheckErrors<String, String, String>,
) -> bool {
    match err {
        CheckErrors::ValueTooLarge => read is ValueTooLarge,
        CheckErrors::ValueOutOfBounds => read is ValueOutOfBounds,
        CheckErrors::TypeSignatureTooDeep => read is TypeSignatureTooDeep,
        CheckErrors::SupertypeTooLarge => read is SupertypeTooLarge,
        CheckErrors::Expects(reason) => read matches CheckErrors::Expects(text) && text@ == reason@,
        CheckErrors::ListTypesMustMatch => read is ListTypesMustMatch,
        CheckErrors::TypeError(expected, found) => {
            read matches CheckErrors::TypeError(first, second) && call_ensures(
                signature,
                (&expected,),
                first,
            ) && call_ensures(signature, (&found,), second)
        },
        CheckErrors::TypeValueError(expected, found) => {
            read matches CheckErrors::TypeValueError(first, second) && call_ensures(
                signature,
                (&expected,),
                first,
            ) && call_ensures(value, (&found,), second)
        },
        CheckErrors::CouldNotDetermineSerializationType => {
            read is CouldNotDetermineSerializationType
        },
        CheckErrors::CouldNotDetermineType => read is CouldNotDetermineType,
        CheckErrors::NoSuchTupleField(name, signature_of_tuple) => {
            read matches CheckErrors::NoSuchTupleField(text, written) && text@ == name@
                && call_ensures(tuple, (&signature_of_tuple,), written)
        },
        CheckErrors::EmptyTuplesNotAllowed => read is EmptyTuplesNotAllowed,
        CheckErrors::NameAlreadyUsed(name) => read matches CheckErrors::NameAlreadyUsed(text)
            && text@ == name@,
        CheckErrors::InvalidCharactersDetected => read is InvalidCharactersDetected,
        CheckErrors::InvalidUTF8Encoding => read is InvalidUTF8Encoding,
    }
}

impl<S, T, V> CheckErrors<S, T, V> {
    /// The error with each signature, tuple signature and value as the functions write it.
    pub fn read_as<A: Fn(&S) -> String, B: Fn(&T) -> String, C: Fn(&V) -> String>(
        &self,
        signature: A,
        tuple: B,
        value: C,
    ) -> (read: CheckErrors<String, String, String>)
        requires
            forall|s: &S| #[trigger] call_requires(signature, (s,)),
            forall|t: &T| #[trigger] call_requires(tuple, (t,)),
            forall|v: &V| #[trigger] call_requires(value, (v,)),
        ensures
            reads_as(*self, signature, tuple, value, read),
    {
        match self {
            CheckErrors::ValueTooLarge => CheckErrors::ValueTooLarge,
            CheckErrors::ValueOutOfBounds => CheckErrors::ValueOutOfBounds,
            CheckErrors::TypeSignatureTooDeep => CheckErrors::TypeSignatureTooDeep,
            CheckErrors::SupertypeTooLarge => CheckErrors::SupertypeTooLarge,
            CheckErrors::Expects(reason) => CheckErrors::Expects(reason.clone()),
            CheckErrors::ListTypesMustMatch => CheckErrors::ListTypesMustMatch,
            CheckErrors::TypeError(expected, found) => CheckErrors::TypeError(
                signature(expected),
                signature(found),
            ),
            CheckErrors::TypeValueError(expected, found) => CheckErrors::TypeValueError(
                signature(expected),
                value(found),
            ),
            CheckErrors::CouldNotDetermineSerializationType => {
                CheckErrors::CouldNotDetermineSerializationType
            },
            CheckErrors::CouldNotDetermineType => CheckErrors::CouldNotDetermineType,
            CheckErrors::NoSuchTupleField(name, signature_of_tuple) => {
                CheckErrors::NoSuchTupleField(name.clone(), tuple(signature_of_tuple))
            },
            CheckErrors::EmptyTuplesNotAllowed => CheckErrors::EmptyTuplesNotAllowed,
            CheckErrors::NameAlreadyUsed(name) => CheckErrors::NameAlreadyUsed(name.clone()),
            CheckErrors::InvalidCharactersDetected => CheckErrors::InvalidCharactersDetected,
            CheckErrors::InvalidUTF8Encoding => CheckErrors::InvalidUTF8Encoding,
        }
    }
}

impl CheckErrors<String, String, String> {
    /// How the error reads: the variant, and its fields in round brackets. Signatures and values
    /// are given as they read, names and reasons are quoted.
    pub fn to_text(&self) -> (text: String)
        ensures
            text@ == check_errors_text(*self),
    {
        match self {
            CheckErrors::ValueTooLarge => "ValueTooLarge".to_owned(),
            CheckErrors::ValueOutOfBounds => "ValueOutOfBounds".to_owned(),
            CheckErrors::TypeSignatureTooDeep => "TypeSignatureTooDeep".to_owned(),
            CheckErrors::SupertypeTooLarge => "SupertypeTooLarge".to_owned(),
            CheckErrors::Expects(reason) => write_one("Expects", quote(reason.as_str()).as_str()),
            CheckErrors::ListTypesMustMatch => "ListTypesMustMatch".to_owned(),
            CheckErrors::TypeError(expected, found) => write_two(
                "TypeError",
                expected.as_str(),
                found.as_str(),
            ),
            CheckErrors::TypeValueError(expected, value) => write_two(
                "TypeValueError",
                expected.as_str(),
                value.as_str(),
            ),
            CheckErrors::CouldNotDetermineSerializationType => {
                "CouldNotDetermineSerializationType".to_owned()
            },
            CheckErrors::CouldNotDetermineType => "CouldNotDetermineType".to_owned(),
            CheckErrors::NoSuchTupleField(name, tuple) => write_two(
                "NoSuchTupleField",
                quote(name.as_str()).as_str(),
                tuple.as_str(),
            ),
            CheckErrors::EmptyTuplesNotAllowed => "EmptyTuplesNotAllowed".to_owned(),
            CheckErrors::NameAlreadyUsed(name) => write_one(
                "NameAlreadyUsed",
                quote(name.as_str()).as_str(),
            ),
            CheckErrors::InvalidCharactersDetected => "InvalidCharactersDetected".to_owned(),
            CheckErrors::InvalidUTF8Encoding => "InvalidUTF8Encoding".to_owned(),
        }
    }
}

impl CheckError<String, String, String> {
    /// How the error reads.
    pub fn to_text(&self) -> (text: String)
        ensures
            text@ == check_errors_text(self.err),
    {
        self.err.to_text()
    }
}

} // verus!
