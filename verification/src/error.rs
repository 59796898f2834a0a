//! The failures that stop a run, each tagged with its kind.

use vstd::prelude::*;
use vstd::string::*;

verus! {

/// `csv::Error`, with nothing said of what is inside: why a record could not be read.
#[verifier::external_type_specification]
#[verifier::external_body]
pub struct ExCsvError(csv::Error);

/// Why a run stopped.
#[derive(Debug)]
pub enum HistError {
    /// The input could not be read as delimited records.
    Csv(csv::Error),
    /// A setting did not have the form it must have.
    Parse(String),
    /// A setting or the data cannot be used.
    Validation(String),
}

/// `result` is a validation failure with the description `text`.
pub open spec fn fails_validation<T>(result: Result<T, HistError>, text: Seq<char>) -> bool {
    result matches Err(e) && e.is_validation(text)
}

/// `result` is a parse failure with the description `text`.
pub open spec fn fails_parse<T>(result: Result<T, HistError>, text: Seq<char>) -> bool {
    result matches Err(e) && e.is_parse(text)
}

/// `csv::Error`'s `Display`, through `to_string`: the error in words.
#[verifier::external_body]
fn csv_error_text(error: &csv::Error) -> (text: String) {
    error.to_string()
}

impl HistError {
    /// This is a parse failure with the description `text`.
    pub open spec fn is_parse(self, text: Seq<char>) -> bool {
        self matches HistError::Parse(m) && m@ == text
    }

    /// This is a validation failure with the description `text`.
    pub open spec fn is_validation(self, text: Seq<char>) -> bool {
        self matches HistError::Validation(m) && m@ == text
    }

    /// A parse failure described by `text`.
    pub fn parse(text: &str) -> (error: HistError)
        ensures
            error.is_parse(text@),
    {
        HistError::Parse(String::from_str(text))
    }

    /// A validation failure described by `text`.
    pub fn validation(text: &str) -> (error: HistError)
        ensures
            error.is_validation(text@),
    {
        HistError::Validation(String::from_str(text))
    }

    /// The failure in words: its kind, a colon, and its description. What `csv` says of
    /// a failure of its own is taken over as it stands.
    pub fn message(&self) -> (text: String)
        ensures
            match *self {
                HistError::Csv(_) => exists|detail: Seq<char>| text@ == "CSV error: "@ + detail,
                HistError::Parse(m) => text@ == "Parse error: "@ + m@,
                HistError::Validation(m) => text@ == "Validation error: "@ + m@,
            },
    {
        match self {
            HistError::Csv(e) => {
                let detail = csv_error_text(e);
                let text = String::from_str("CSV error: ").concat(detail.as_str());
                assert(text@ == "CSV error: "@ + detail@);
                text
            },
            HistError::Parse(m) => String::from_str("Parse error: ").concat(m.as_str()),
            HistError::Validation(m) => String::from_str("Validation error: ").concat(m.as_str()),
        }
    }
}

} // verus!
