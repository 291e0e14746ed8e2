//! Laws on errors.

use vstd::prelude::*;

use crate::clarity::errors::{check_errors_text, reads_as, CheckErrors};
use crate::error::{cause_of, error_text, ExtractError};
use crate::text::quoted;

verus! {

/// An error names the struct or the package that it is about, or what rustdoc said, and keeps its
/// cause apart.
pub proof fn law_errors_name_their_subject(subject: String, cause: String)
    ensures
        error_text(ExtractError::MainStructNotFound(subject)) == "Main config struct '"@ + subject@
            + "' not found in rustdoc JSON"@,
        error_text(ExtractError::RustdocFailed(subject)) == "cargo rustdoc failed: "@ + subject@,
        error_text(ExtractError::AdditionalNotStarted(subject, cause))
            == "Failed to run cargo rustdoc command for "@ + subject@,
        error_text(ExtractError::NotStarted(cause)) == "Failed to run cargo rustdoc command"@,
        error_text(ExtractError::UnreadableJson(cause))
            == "Failed to read generated rustdoc JSON file"@,
        error_text(ExtractError::InvalidJson(cause)) == "Failed to parse rustdoc JSON output"@,
{
}

/// The cause of an error is the one that it was made with, whole. Errors of the library itself have
/// none.
pub proof fn law_causes_are_kept(subject: String, cause: String)
    ensures
        cause_of(ExtractError::NotStarted(cause)) == Some(cause@),
        cause_of(ExtractError::AdditionalNotStarted(subject, cause)) == Some(cause@),
        cause_of(ExtractError::UnreadableJson(cause)) == Some(cause@),
        cause_of(ExtractError::InvalidJson(cause)) == Some(cause@),
        cause_of(ExtractError::MainStructNotFound(subject)) is None,
        cause_of(ExtractError::RustdocFailed(subject)) is None,
        cause_of(ExtractError::MissingIndex) is None,
        cause_of(ExtractError::IndexNotObject) is None,
        cause_of(ExtractError::MissingIndexField) is None,
{
}

/// An error of the type checker reads as its variant, with its fields in round brackets, in their
/// order: names and reasons quoted, signatures and values as they are given.
pub proof fn law_fields_of_errors_are_read(first: String, second: String)
    ensures
        check_errors_text(CheckErrors::TypeError(first, second)) == "TypeError"@ + "("@ + first@
            + ", "@ + second@ + ")"@,
        check_errors_text(CheckErrors::TypeValueError(first, second)) == "TypeValueError"@ + "("@
            + first@ + ", "@ + second@ + ")"@,
        check_errors_text(CheckErrors::NoSuchTupleField(first, second)) == "NoSuchTupleField"@
            + "("@ + quoted(first@) + ", "@ + second@ + ")"@,
        check_errors_text(CheckErrors::Expects(first)) == "Expects"@ + "("@ + quoted(first@)
            + ")"@,
        check_errors_text(CheckErrors::NameAlreadyUsed(first)) == "NameAlreadyUsed"@ + "("@
            + quoted(first@) + ")"@,
{
}

/// Reading an error keeps its variant, its names and its reasons, and writes each signature, tuple
/// signature and value with the function for it.
pub proof fn law_reading_keeps_errors<
    S,
    T,
    V,
    A: Fn(&S) -> String,
    B: Fn(&T) -> String,
    C: Fn(&V) -> String,
>(
    err: CheckErrors<S, T, V>,
    signature: A,
    tuple: B,
    value: C,
    read: CheckErrors<String, String, String>,
)
    requires
        reads_as(err, signature, tuple, value, read),
    ensures
        err matches CheckErrors::Expects(reason) ==> read matches CheckErrors::Expects(text) && text@
            == reason@,
        err matches CheckErrors::NameAlreadyUsed(name)
            ==> read matches CheckErrors::NameAlreadyUsed(text) && text@ == name@,
        err matches CheckErrors::TypeError(a, b) ==> read matches CheckErrors::TypeError(x, y)
            && call_ensures(signature, (&a,), x) && call_ensures(signature, (&b,), y),
        err matches CheckErrors::TypeValueError(a, b)
            ==> read matches CheckErrors::TypeValueError(x, y) && call_ensures(
            signature,
            (&a,),
            x,
        ) && call_ensures(value, (&b,), y),
        err matches CheckErrors::NoSuchTupleField(name, b)
            ==> read matches CheckErrors::NoSuchTupleField(text, y) && text@ == name@
            && call_ensures(tuple, (&b,), y),
        err is ValueTooLarge ==> read is ValueTooLarge,
        err is ValueOutOfBounds ==> read is ValueOutOfBounds,
        err is TypeSignatureTooDeep ==> read is TypeSignatureTooDeep,
        err is SupertypeTooLarge ==> read is SupertypeTooLarge,
        err is ListTypesMustMatch ==> read is ListTypesMustMatch,
        err is CouldNotDetermineSerializationType ==> read is CouldNotDetermineSerializationType,
        err is CouldNotDetermineType ==> read is CouldNotDetermineType,
        err is EmptyTuplesNotAllowed ==> read is EmptyTuplesNotAllowed,
        err is InvalidCharactersDetected ==> read is InvalidCharactersDetected,
        err is InvalidUTF8Encoding ==> read is InvalidUTF8Encoding,
{
}

} // verus!
