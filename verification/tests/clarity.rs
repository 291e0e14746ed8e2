//! Clarity: textual forms and errors.

use config_docs::clarity::errors::{
    write_one, write_two, CheckError, CheckErrors, CostErrors, InterpreterError, TypeImplError,
    VmError,
};
use config_docs::clarity::traits::{
    deserialize_error, ClarityDeserializable, ClaritySerializable,
};

type Errors = CheckErrors<String, String, String>;

#[test]
fn text_is_read_back() {
    for text in ["", "a", "\"quoted\" \n 語"] {
        let written = text.to_string().serialize();
        assert_eq!(written, text);
        assert_eq!(String::deserialize(&written), Ok(text.to_string()));
    }
}

#[test]
fn failed_reading_is_unexpected() {
    assert_eq!(
        deserialize_error(),
        VmError::Interpreter(InterpreterError::Expect(
            "Failed to deserialize vm.Value".to_string()
        ))
    );
    let reason = InterpreterError::Expect("x".to_string());
    assert_eq!(
        VmError::from(reason),
        VmError::Interpreter(InterpreterError::Expect("x".to_string()))
    );
}

#[test]
fn cost_errors_are_unexpected() {
    assert_eq!(
        Errors::from(CostErrors::InterpreterFailure),
        CheckErrors::Expects("Unexpected interpreter failure in cost computation".to_string())
    );
    assert_eq!(
        Errors::from(CostErrors::Expect("reason".to_string())),
        CheckErrors::Expects("reason".to_string())
    );
}

#[test]
fn check_error_holds_its_error() {
    let error: CheckError<u8, u8, u8> = CheckError::new(CheckErrors::TypeError(1, 2));
    assert_eq!(error.err, CheckErrors::TypeError(1, 2));
    let error: TypeImplError<u8, u8, u8> = TypeImplError::TypeValueError(1, 2);
    assert!(matches!(error, TypeImplError::TypeValueError(1, 2)));
}

/// A signature or value that reads as `debug` writes it.
fn read(value: &str) -> String {
    value.to_string()
}

#[test]
fn errors_read_as_debug_writes_them() {
    let text = "a \"b\"\n\u{301}\u{7f}'語";
    let errors: Vec<CheckErrors<u8, u8, u8>> = vec![
        CheckErrors::ValueTooLarge,
        CheckErrors::ValueOutOfBounds,
        CheckErrors::TypeSignatureTooDeep,
        CheckErrors::SupertypeTooLarge,
        CheckErrors::Expects(text.to_string()),
        CheckErrors::ListTypesMustMatch,
        CheckErrors::TypeError(1, 2),
        CheckErrors::TypeValueError(3, 4),
        CheckErrors::CouldNotDetermineSerializationType,
        CheckErrors::CouldNotDetermineType,
        CheckErrors::NoSuchTupleField(text.to_string(), 5),
        CheckErrors::EmptyTuplesNotAllowed,
        CheckErrors::NameAlreadyUsed(text.to_string()),
        CheckErrors::InvalidCharactersDetected,
        CheckErrors::InvalidUTF8Encoding,
    ];
    let as_read: Vec<Errors> = vec![
        CheckErrors::ValueTooLarge,
        CheckErrors::ValueOutOfBounds,
        CheckErrors::TypeSignatureTooDeep,
        CheckErrors::SupertypeTooLarge,
        CheckErrors::Expects(text.to_string()),
        CheckErrors::ListTypesMustMatch,
        CheckErrors::TypeError(read("1"), read("2")),
        CheckErrors::TypeValueError(read("3"), read("4")),
        CheckErrors::CouldNotDetermineSerializationType,
        CheckErrors::CouldNotDetermineType,
        CheckErrors::NoSuchTupleField(text.to_string(), read("5")),
        CheckErrors::EmptyTuplesNotAllowed,
        CheckErrors::NameAlreadyUsed(text.to_string()),
        CheckErrors::InvalidCharactersDetected,
        CheckErrors::InvalidUTF8Encoding,
    ];
    for (error, as_read) in errors.iter().zip(as_read) {
        let read = error.read_as(
            |signature| signature.to_string(),
            |tuple| tuple.to_string(),
            |value| value.to_string(),
        );
        assert_eq!(read, as_read);
        assert_eq!(as_read.to_text(), format!("{:?}", error));
        assert_eq!(CheckError::new(as_read).to_text(), format!("{:?}", error));
    }
    let error: Errors = CheckErrors::NameAlreadyUsed("a\"b".to_string());
    assert_eq!(error.to_text(), "NameAlreadyUsed(\"a\\\"b\")");
}

#[test]
fn variants_are_written_with_their_fields() {
    assert_eq!(write_one("Some", "1"), "Some(1)");
    assert_eq!(write_two("Pair", "a", ""), "Pair(a, )");
}

#[test]
fn signatures_tuples_and_values_are_written_apart() {
    let read = |error: CheckErrors<u8, u8, u8>| {
        error
            .read_as(|s| format!("s{}", s), |t| format!("t{}", t), |v| format!("v{}", v))
            .to_text()
    };
    assert_eq!(read(CheckErrors::TypeError(1, 2)), "TypeError(s1, s2)");
    assert_eq!(read(CheckErrors::TypeValueError(1, 2)), "TypeValueError(s1, v2)");
    assert_eq!(
        read(CheckErrors::NoSuchTupleField("f".to_string(), 3)),
        "NoSuchTupleField(\"f\", t3)"
    );
}
