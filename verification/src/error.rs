//! The error surface shared by every codec and by the format selector.

use vstd::prelude::*;

verus! {

/// List of possible errors.
#[derive(Debug)]
pub enum YpbankError {
    /// Unable to find or open file
    FileNotFound(String),
    /// Given file format is not known to the library
    UnknownFormat(String),
    /// Error parsing CSV data
    CsvParseError(String),
    /// Unexpected value in CSV data
    CsvUnexpectedValue(String),
    /// Text field not found in text record
    TextFieldNotFound(String),
    /// Text field has incorrect value
    TextUnexpectedFieldValue(String, String),
    /// Unable to parse text field value
    TextUnableToParse(String),
    /// Text record contains duplicate entries
    TextDuplicateField(String),
    /// Unable to read text data
    TextReadError(String),
    /// Got unexpected value while reading binary data
    BinaryUnexpectedValue,
    /// Read error while reading binary data
    BinaryReadError(String),
    /// Description of a binary record is too long for its length field
    BinaryDescriptionTooLong,
    /// Binary record does not contain enough data
    BinaryRecordTooShort,
    /// Error writing output
    WriteError(String),
}

/// Mathematical model of a [`YpbankError`]: the same variants with string
/// payloads as character sequences.
#[verifier::ext_equal]
pub enum ErrorV {
    /// Unable to find or open file
    FileNotFound(Seq<char>),
    /// Given file format is not known to the library
    UnknownFormat(Seq<char>),
    /// Error parsing CSV data
    CsvParseError(Seq<char>),
    /// Unexpected value in CSV data
    CsvUnexpectedValue(Seq<char>),
    /// Text field not found in text record
    TextFieldNotFound(Seq<char>),
    /// Text field has incorrect value
    TextUnexpectedFieldValue(Seq<char>, Seq<char>),
    /// Unable to parse text field value
    TextUnableToParse(Seq<char>),
    /// Text record contains duplicate entries
    TextDuplicateField(Seq<char>),
    /// Unable to read text data
    TextReadError(Seq<char>),
    /// Got unexpected value while reading binary data
    BinaryUnexpectedValue,
    /// Read error while reading binary data
    BinaryReadError(Seq<char>),
    /// Description of a binary record is too long for its length field
    BinaryDescriptionTooLong,
    /// Binary record does not contain enough data
    BinaryRecordTooShort,
    /// Error writing output
    WriteError(Seq<char>),
}

impl View for YpbankError {
    type V = ErrorV;

    open spec fn view(&self) -> ErrorV {
        match self {
            YpbankError::FileNotFound(s) => ErrorV::FileNotFound(s@),
            YpbankError::UnknownFormat(s) => ErrorV::UnknownFormat(s@),
            YpbankError::CsvParseError(s) => ErrorV::CsvParseError(s@),
            YpbankError::CsvUnexpectedValue(s) => ErrorV::CsvUnexpectedValue(s@),
            YpbankError::TextFieldNotFound(s) => ErrorV::TextFieldNotFound(s@),
            YpbankError::TextUnexpectedFieldValue(f, v) => ErrorV::TextUnexpectedFieldValue(
                f@,
                v@,
            ),
            YpbankError::TextUnableToParse(s) => ErrorV::TextUnableToParse(s@),
            YpbankError::TextDuplicateField(s) => ErrorV::TextDuplicateField(s@),
            YpbankError::TextReadError(s) => ErrorV::TextReadError(s@),
            YpbankError::BinaryUnexpectedValue => ErrorV::BinaryUnexpectedValue,
            YpbankError::BinaryReadError(s) => ErrorV::BinaryReadError(s@),
            YpbankError::BinaryDescriptionTooLong => ErrorV::BinaryDescriptionTooLong,
            YpbankError::BinaryRecordTooShort => ErrorV::BinaryRecordTooShort,
            YpbankError::WriteError(s) => ErrorV::WriteError(s@),
        }
    }
}

impl DeepView for YpbankError {
    type V = ErrorV;

    open spec fn deep_view(&self) -> ErrorV {
        self.view()
    }
}

impl PartialEq for YpbankError {
    fn eq(&self, other: &Self) -> (r: bool) {
        match (self, other) {
            (YpbankError::FileNotFound(a), YpbankError::FileNotFound(b)) => *a == *b,
            (YpbankError::UnknownFormat(a), YpbankError::UnknownFormat(b)) => *a == *b,
            (YpbankError::CsvParseError(a), YpbankError::CsvParseError(b)) => *a == *b,
            (YpbankError::CsvUnexpectedValue(a), YpbankError::CsvUnexpectedValue(b)) => *a == *b,
            (YpbankError::TextFieldNotFound(a), YpbankError::TextFieldNotFound(b)) => *a == *b,
            (
                YpbankError::TextUnexpectedFieldValue(a, av),
                YpbankError::TextUnexpectedFieldValue(b, bv),
            ) => *a == *b && *av == *bv,
            (YpbankError::TextUnableToParse(a), YpbankError::TextUnableToParse(b)) => *a == *b,
            (YpbankError::TextDuplicateField(a), YpbankError::TextDuplicateField(b)) => *a == *b,
            (YpbankError::TextReadError(a), YpbankError::TextReadError(b)) => *a == *b,
            (YpbankError::BinaryUnexpectedValue, YpbankError::BinaryUnexpectedValue) => true,
            (YpbankError::BinaryReadError(a), YpbankError::BinaryReadError(b)) => *a == *b,
            (
                YpbankError::BinaryDescriptionTooLong,
                YpbankError::BinaryDescriptionTooLong,
            ) => true,
            (YpbankError::BinaryRecordTooShort, YpbankError::BinaryRecordTooShort) => true,
            (YpbankError::WriteError(a), YpbankError::WriteError(b)) => *a == *b,
            _ => false,
        }
    }
}

impl Eq for YpbankError {}

impl vstd::std_specs::cmp::PartialEqSpecImpl for YpbankError {
    open spec fn obeys_eq_spec() -> bool {
        true
    }

    open spec fn eq_spec(&self, other: &Self) -> bool {
        self@ == other@
    }
}

} // verus!
