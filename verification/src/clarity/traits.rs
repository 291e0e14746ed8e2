//! Values that have a textual form.

use vstd::prelude::*;

use crate::clarity::errors::{InterpreterError, VmError};

verus! {

/// A value that can be written as text.
pub trait ClaritySerializable {
    fn serialize(&self) -> String;
}

/// A type of which values can be read from text.
pub trait ClarityDeserializable<T> {
    fn deserialize(json: &str) -> Result<T, VmError>;
}

/// A text is written as it is.
impl ClaritySerializable for String {
    fn serialize(&self) -> (text: String)
        ensures
            text@ == self@,
    {
        self.clone()
    }
}

/// A text is read as it is.
impl ClarityDeserializable<String> for String {
    fn deserialize(serialized: &str) -> (value: Result<String, VmError>)
        ensures
            value matches Ok(text) && text@ == serialized@,
    {
        Ok(serialized.to_owned())
    }
}

/// The error of a text that no value can be read from.
pub fn deserialize_error() -> (error: VmError)
    ensures
        error matches VmError::Interpreter(InterpreterError::Expect(reason)) && reason@
            == "Failed to deserialize vm.Value"@,
{
    VmError::from(InterpreterError::Expect("Failed to deserialize vm.Value".to_owned()))
}

/// Reading back what was written for a text gives that text.
pub proof fn law_text_round_trip(text: String, written: String, read: Result<String, VmError>)
    requires
        call_ensures(<String as ClaritySerializable>::serialize, (&text,), written),
        exists|json: &str|
            json@ == written@ && call_ensures(
                <String as ClarityDeserializable<String>>::deserialize,
                (json,),
                read,
            ),
    ensures
        read matches Ok(back) && back@ == text@,
{
}

} // verus!
