//! What can go wrong, and the message that a caller is shown for it.

use vstd::prelude::*;
use vstd::string::StringExecFns;

verus! {

/// The four families of failure.
#[derive(Clone, Copy, Debug, PartialEq, Eq, Structural)]
pub enum ErrorKind {
    /// Text could not be produced or delivered.
    IoFailure,
    /// The input is not well-formed CSV, JSON or JSON lines.
    ParseFailure,
    /// There is nothing in the input to make a table of.
    EmptyInput,
    /// The input is well-formed, but not of a shape that has rows.
    InvalidShape,
}

/// One failure of one call. Every variant that holds a string holds the
/// detail that the CSV or JSON reader or writer reported.
#[derive(Debug)]
pub enum TableError {
    /// The CSV header row could not be read.
    CsvHeaders(String),
    /// A CSV record could not be read.
    CsvRecord(String),
    /// The CSV text holds no header row.
    CsvEmpty,
    /// The text is not JSON.
    JsonSyntax(String),
    /// The JSON document is not well-formed: it holds a number whose text
    /// is not canonical, or an object with a key twice.
    JsonMalformed,
    /// The JSON document is an empty array.
    JsonEmptyArray,
    /// The JSON document is neither an object nor an array.
    JsonShape,
    /// The JSON-lines text has no line that is not blank.
    JsonlEmpty,
    /// The first line that is not blank is not JSON. The number is that of
    /// the line in the text, counted from one.
    JsonlFirstLine(usize, String),
    /// A later line is not JSON. The number is that of the line in the
    /// text, counted from one, blank lines counted as well.
    JsonlLine(usize, String),
    /// A line, numbered likewise, holds a document that is not well-formed.
    JsonlMalformed(usize),
    /// A line is JSON, but not an object.
    JsonlShape,
    /// The header row could not be written as CSV.
    CsvWriteHeaders(String),
    /// A row could not be written as CSV.
    CsvWriteRow(String),
    /// The CSV writer could not hand over what it had written.
    CsvSave(String),
    /// The rows could not be written as JSON.
    JsonWrite(String),
}

/// A failure as mathematics sees it: the same cases, with texts for
/// strings and natural numbers for line numbers.
pub enum ErrorModel {
    CsvHeaders(Seq<char>),
    CsvRecord(Seq<char>),
    CsvEmpty,
    JsonSyntax(Seq<char>),
    JsonMalformed,
    JsonEmptyArray,
    JsonShape,
    JsonlEmpty,
    JsonlFirstLine(nat, Seq<char>),
    JsonlLine(nat, Seq<char>),
    JsonlMalformed(nat),
    JsonlShape,
    CsvWriteHeaders(Seq<char>),
    CsvWriteRow(Seq<char>),
    CsvSave(Seq<char>),
    JsonWrite(Seq<char>),
}

impl View for TableError {
    type V = ErrorModel;

    open spec fn view(&self) -> ErrorModel {
        match self {
            TableError::CsvHeaders(detail) => ErrorModel::CsvHeaders(detail@),
            TableError::CsvRecord(detail) => ErrorModel::CsvRecord(detail@),
            TableError::CsvEmpty => ErrorModel::CsvEmpty,
            TableError::JsonSyntax(detail) => ErrorModel::JsonSyntax(detail@),
            TableError::JsonMalformed => ErrorModel::JsonMalformed,
            TableError::JsonEmptyArray => ErrorModel::JsonEmptyArray,
            TableError::JsonShape => ErrorModel::JsonShape,
            TableError::JsonlEmpty => ErrorModel::JsonlEmpty,
            TableError::JsonlFirstLine(line, detail) => ErrorModel::JsonlFirstLine(
                *line as nat,
                detail@,
            ),
            TableError::JsonlLine(line, detail) => ErrorModel::JsonlLine(*line as nat, detail@),
            TableError::JsonlMalformed(line) => ErrorModel::JsonlMalformed(*line as nat),
            TableError::JsonlShape => ErrorModel::JsonlShape,
            TableError::CsvWriteHeaders(detail) => ErrorModel::CsvWriteHeaders(detail@),
            TableError::CsvWriteRow(detail) => ErrorModel::CsvWriteRow(detail@),
            TableError::CsvSave(detail) => ErrorModel::CsvSave(detail@),
            TableError::JsonWrite(detail) => ErrorModel::JsonWrite(detail@),
        }
    }
}

/// The decimal digit of a number below ten.
pub open spec fn digit_text(digit: nat) -> Seq<char> {
    if digit == 0 {
        "0"@
    } else if digit == 1 {
        "1"@
    } else if digit == 2 {
        "2"@
    } else if digit == 3 {
        "3"@
    } else if digit == 4 {
        "4"@
    } else if digit == 5 {
        "5"@
    } else if digit == 6 {
        "6"@
    } else if digit == 7 {
        "7"@
    } else if digit == 8 {
        "8"@
    } else {
        "9"@
    }
}

/// The decimal text of a number, without leading zeros.
pub open spec fn decimal_text(number: nat) -> Seq<char>
    decreases number,
{
    if number < 10 {
        digit_text(number)
    } else {
        decimal_text(number / 10) + digit_text(number % 10)
    }
}

fn digit_str(digit: usize) -> (text: &'static str)
    requires
        digit < 10,
    ensures
        text@ == digit_text(digit as nat),
{
    if digit == 0 {
        "0"
    } else if digit == 1 {
        "1"
    } else if digit == 2 {
        "2"
    } else if digit == 3 {
        "3"
    } else if digit == 4 {
        "4"
    } else if digit == 5 {
        "5"
    } else if digit == 6 {
        "6"
    } else if digit == 7 {
        "7"
    } else if digit == 8 {
        "8"
    } else {
        "9"
    }
}

/// The decimal text of a number.
pub fn decimal_string(number: usize) -> (text: String)
    ensures
        text@ == decimal_text(number as nat),
    decreases number,
{
    if number < 10 {
        digit_str(number).to_owned()
    } else {
        let mut text = decimal_string(number / 10);
        text.append(digit_str(number % 10));
        text
    }
}

fn prefixed(prefix: &str, detail: &String) -> (text: String)
    ensures
        text@ == prefix@ + detail@,
{
    let mut text = prefix.to_owned();
    text.append(detail.as_str());
    text
}

impl ErrorModel {
    /// The family that the failure belongs to.
    pub open spec fn kind(self) -> ErrorKind {
        match self {
            ErrorModel::CsvHeaders(_) => ErrorKind::ParseFailure,
            ErrorModel::CsvRecord(_) => ErrorKind::ParseFailure,
            ErrorModel::CsvEmpty => ErrorKind::EmptyInput,
            ErrorModel::JsonSyntax(_) => ErrorKind::ParseFailure,
            ErrorModel::JsonMalformed => ErrorKind::ParseFailure,
            ErrorModel::JsonEmptyArray => ErrorKind::EmptyInput,
            ErrorModel::JsonShape => ErrorKind::InvalidShape,
            ErrorModel::JsonlEmpty => ErrorKind::EmptyInput,
            ErrorModel::JsonlFirstLine(_, _) => ErrorKind::ParseFailure,
            ErrorModel::JsonlLine(_, _) => ErrorKind::ParseFailure,
            ErrorModel::JsonlMalformed(_) => ErrorKind::ParseFailure,
            ErrorModel::JsonlShape => ErrorKind::InvalidShape,
            ErrorModel::CsvWriteHeaders(_) => ErrorKind::InvalidShape,
            ErrorModel::CsvWriteRow(_) => ErrorKind::InvalidShape,
            ErrorModel::CsvSave(_) => ErrorKind::IoFailure,
            ErrorModel::JsonWrite(_) => ErrorKind::IoFailure,
        }
    }

    /// The line that the failure is about, where it is about a line of
    /// JSON-lines text: the number of the line in the text, counted from
    /// one.
    pub open spec fn line(self) -> Option<nat> {
        match self {
            ErrorModel::JsonlFirstLine(line, _) => Some(line),
            ErrorModel::JsonlLine(line, _) => Some(line),
            ErrorModel::JsonlMalformed(line) => Some(line),
            _ => None,
        }
    }

    /// The message that a caller is shown.
    pub open spec fn message(self) -> Seq<char> {
        match self {
            ErrorModel::CsvHeaders(detail) => "Failed to read headers: "@ + detail,
            ErrorModel::CsvRecord(detail) => "Failed to read record: "@ + detail,
            ErrorModel::CsvEmpty => "CSV file is empty"@,
            ErrorModel::JsonSyntax(detail) => "Failed to parse JSON: "@ + detail,
            ErrorModel::JsonMalformed => "Failed to parse JSON: a number is not canonical or a key is repeated"@,
            ErrorModel::JsonEmptyArray => "JSON array is empty"@,
            ErrorModel::JsonShape => "JSON must be an object or an array of objects"@,
            ErrorModel::JsonlEmpty => "JSONL file is empty"@,
            ErrorModel::JsonlFirstLine(_, detail) => "Failed to parse first line: "@ + detail,
            ErrorModel::JsonlLine(line, detail) => "Failed to parse line "@ + decimal_text(line)
                + ": "@ + detail,
            ErrorModel::JsonlMalformed(line) => "Failed to parse line "@ + decimal_text(line)
                + ": a number is not canonical or a key is repeated"@,
            ErrorModel::JsonlShape => "JSONL lines must be objects"@,
            ErrorModel::CsvWriteHeaders(detail) => "Failed to write headers: "@ + detail,
            ErrorModel::CsvWriteRow(detail) => "Failed to write row: "@ + detail,
            ErrorModel::CsvSave(detail) => "Failed to save file: "@ + detail,
            ErrorModel::JsonWrite(detail) => "Failed to serialize JSON: "@ + detail,
        }
    }
}

impl TableError {
    /// The family that the failure belongs to.
    pub fn kind(&self) -> (kind: ErrorKind)
        ensures
            kind == self@.kind(),
    {
        match self {
            TableError::CsvHeaders(_) => ErrorKind::ParseFailure,
            TableError::CsvRecord(_) => ErrorKind::ParseFailure,
            TableError::CsvEmpty => ErrorKind::EmptyInput,
            TableError::JsonSyntax(_) => ErrorKind::ParseFailure,
            TableError::JsonMalformed => ErrorKind::ParseFailure,
            TableError::JsonEmptyArray => ErrorKind::EmptyInput,
            TableError::JsonShape => ErrorKind::InvalidShape,
            TableError::JsonlEmpty => ErrorKind::EmptyInput,
            TableError::JsonlFirstLine(_, _) => ErrorKind::ParseFailure,
            TableError::JsonlLine(_, _) => ErrorKind::ParseFailure,
            TableError::JsonlMalformed(_) => ErrorKind::ParseFailure,
            TableError::JsonlShape => ErrorKind::InvalidShape,
            TableError::CsvWriteHeaders(_) => ErrorKind::InvalidShape,
            TableError::CsvWriteRow(_) => ErrorKind::InvalidShape,
            TableError::CsvSave(_) => ErrorKind::IoFailure,
            TableError::JsonWrite(_) => ErrorKind::IoFailure,
        }
    }

    /// The line that the failure is about, where it is about a line.
    pub fn line(&self) -> (line: Option<usize>)
        ensures
            line is Some == self@.line() is Some,
            line is Some ==> line->0 as nat == self@.line()->0,
    {
        match self {
            TableError::JsonlFirstLine(line, _) => Some(*line),
            TableError::JsonlLine(line, _) => Some(*line),
            TableError::JsonlMalformed(line) => Some(*line),
            _ => None,
        }
    }

    /// The message that a caller is shown.
    pub fn message(&self) -> (text: String)
        ensures
            text@ == self@.message(),
    {
        match self {
            TableError::CsvHeaders(detail) => prefixed("Failed to read headers: ", detail),
            TableError::CsvRecord(detail) => prefixed("Failed to read record: ", detail),
            TableError::CsvEmpty => "CSV file is empty".to_owned(),
            TableError::JsonSyntax(detail) => prefixed("Failed to parse JSON: ", detail),
            TableError::JsonMalformed => "Failed to parse JSON: a number is not canonical or a key is repeated".to_owned(),
            TableError::JsonEmptyArray => "JSON array is empty".to_owned(),
            TableError::JsonShape => "JSON must be an object or an array of objects".to_owned(),
            TableError::JsonlEmpty => "JSONL file is empty".to_owned(),
            TableError::JsonlFirstLine(_, detail) => prefixed(
                "Failed to parse first line: ",
                detail,
            ),
            TableError::JsonlLine(line, detail) => {
                let mut text = "Failed to parse line ".to_owned();
                text.append(decimal_string(*line).as_str());
                text.append(": ");
                text.append(detail.as_str());
                text
            },
            TableError::JsonlMalformed(line) => {
                let mut text = "Failed to parse line ".to_owned();
                text.append(decimal_string(*line).as_str());
                text.append(": a number is not canonical or a key is repeated");
                text
            },
            TableError::JsonlShape => "JSONL lines must be objects".to_owned(),
            TableError::CsvWriteHeaders(detail) => prefixed("Failed to write headers: ", detail),
            TableError::CsvWriteRow(detail) => prefixed("Failed to write row: ", detail),
            TableError::CsvSave(detail) => prefixed("Failed to save file: ", detail),
            TableError::JsonWrite(detail) => prefixed("Failed to serialize JSON: ", detail),
        }
    }
}

} // verus!
