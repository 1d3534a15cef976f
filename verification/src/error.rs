//! What can go wrong: with one line, and with a table as a whole.

use crate::number::{decimal, decimal_text};
use crate::text::str_eq;
use vstd::prelude::*;
use vstd::string::*;

verus! {

/// The field of a line that is missing or malformed. A malformed field comes
/// with its text.
#[derive(Debug)]
pub enum LineError {
    /// The line has no field at all.
    MissingSpec,
    /// The line ends after its first field.
    MissingFile,
    /// The second field is a path, but not an absolute one.
    InvalidFilePath(String),
    /// The second field is no path: it holds a NUL character.
    InvalidFile(String),
    /// The line ends after its second field.
    MissingVfstype,
    /// The line ends after its third field.
    MissingMntops,
    /// The line ends after its fourth field.
    MissingFreq,
    /// The fifth field is neither the number 0 nor the number 1.
    InvalidFreq(String),
    /// The line ends after its fifth field.
    MissingPassno,
    /// The sixth field is no number, or a negative one, or one too large.
    InvalidPassno(String),
}

/// A [`LineError`] as a mathematical value.
pub enum LineErrorView {
    MissingSpec,
    MissingFile,
    InvalidFilePath(Seq<char>),
    InvalidFile(Seq<char>),
    MissingVfstype,
    MissingMntops,
    MissingFreq,
    InvalidFreq(Seq<char>),
    MissingPassno,
    InvalidPassno(Seq<char>),
}

impl View for LineError {
    type V = LineErrorView;

    open spec fn view(&self) -> LineErrorView {
        match *self {
            LineError::MissingSpec => LineErrorView::MissingSpec,
            LineError::MissingFile => LineErrorView::MissingFile,
            LineError::InvalidFilePath(f) => LineErrorView::InvalidFilePath(f@),
            LineError::InvalidFile(f) => LineErrorView::InvalidFile(f@),
            LineError::MissingVfstype => LineErrorView::MissingVfstype,
            LineError::MissingMntops => LineErrorView::MissingMntops,
            LineError::MissingFreq => LineErrorView::MissingFreq,
            LineError::InvalidFreq(f) => LineErrorView::InvalidFreq(f@),
            LineError::MissingPassno => LineErrorView::MissingPassno,
            LineError::InvalidPassno(f) => LineErrorView::InvalidPassno(f@),
        }
    }
}

impl LineErrorView {
    /// What is wrong, without the prefix that every message has.
    pub open spec fn reason(self) -> Seq<char> {
        match self {
            LineErrorView::MissingSpec => "Missing field #1 (spec)"@,
            LineErrorView::MissingFile => "Missing field #2 (file)"@,
            LineErrorView::InvalidFilePath(f) => "Bad field #2 (file) value (not absolute path): "@
                + f,
            LineErrorView::InvalidFile(f) => "Bad field #2 (file) value: "@ + f,
            LineErrorView::MissingVfstype => "Missing field #3 (vfstype)"@,
            LineErrorView::MissingMntops => "Missing field #4 (mntops)"@,
            LineErrorView::MissingFreq => "Missing field #5 (freq)"@,
            LineErrorView::InvalidFreq(f) => "Bad field #5 (dump) value: "@ + f,
            LineErrorView::MissingPassno => "Missing field #6 (passno)"@,
            LineErrorView::InvalidPassno(f) => "Bad field #6 (passno) value: "@ + f,
        }
    }

    /// The message of the error.
    pub open spec fn message(self) -> Seq<char> {
        "Line parsing: "@ + self.reason()
    }
}

/// `head` followed by `tail`.
fn joined(head: &str, tail: &str) -> (r: String)
    ensures
        r@ == head@ + tail@,
{
    let mut r = String::from_str(head);
    r.append(tail);
    r
}

impl LineError {
    /// What is wrong, without the prefix that every message has.
    fn reason(&self) -> (r: String)
        ensures
            r@ == self@.reason(),
    {
        match self {
            LineError::MissingSpec => String::from_str("Missing field #1 (spec)"),
            LineError::MissingFile => String::from_str("Missing field #2 (file)"),
            LineError::InvalidFilePath(f) => joined(
                "Bad field #2 (file) value (not absolute path): ",
                f.as_str(),
            ),
            LineError::InvalidFile(f) => joined("Bad field #2 (file) value: ", f.as_str()),
            LineError::MissingVfstype => String::from_str("Missing field #3 (vfstype)"),
            LineError::MissingMntops => String::from_str("Missing field #4 (mntops)"),
            LineError::MissingFreq => String::from_str("Missing field #5 (freq)"),
            LineError::InvalidFreq(f) => joined("Bad field #5 (dump) value: ", f.as_str()),
            LineError::MissingPassno => String::from_str("Missing field #6 (passno)"),
            LineError::InvalidPassno(f) => joined("Bad field #6 (passno) value: ", f.as_str()),
        }
    }

    /// The message of the error: which field, and for a malformed one its
    /// text.
    pub fn to_string(&self) -> (r: String)
        ensures
            r@ == self@.message(),
    {
        let reason = self.reason();
        joined("Line parsing: ", reason.as_str())
    }
}

impl PartialEq for LineError {
    fn eq(&self, other: &LineError) -> (r: bool) {
        match (self, other) {
            (LineError::MissingSpec, LineError::MissingSpec) => true,
            (LineError::MissingFile, LineError::MissingFile) => true,
            (LineError::InvalidFilePath(a), LineError::InvalidFilePath(b)) => str_eq(
                a.as_str(),
                b.as_str(),
            ),
            (LineError::InvalidFile(a), LineError::InvalidFile(b)) => str_eq(
                a.as_str(),
                b.as_str(),
            ),
            (LineError::MissingVfstype, LineError::MissingVfstype) => true,
            (LineError::MissingMntops, LineError::MissingMntops) => true,
            (LineError::MissingFreq, LineError::MissingFreq) => true,
            (LineError::InvalidFreq(a), LineError::InvalidFreq(b)) => str_eq(
                a.as_str(),
                b.as_str(),
            ),
            (LineError::MissingPassno, LineError::MissingPassno) => true,
            (LineError::InvalidPassno(a), LineError::InvalidPassno(b)) => str_eq(
                a.as_str(),
                b.as_str(),
            ),
            _ => false,
        }
    }
}

impl vstd::std_specs::cmp::PartialEqSpecImpl for LineError {
    open spec fn obeys_eq_spec() -> bool {
        true
    }

    open spec fn eq_spec(&self, other: &LineError) -> bool {
        self@ == other@
    }
}

impl Eq for LineError {

}

impl Clone for LineError {
    fn clone(&self) -> (r: LineError)
        ensures
            r@ == self@,
    {
        match self {
            LineError::MissingSpec => LineError::MissingSpec,
            LineError::MissingFile => LineError::MissingFile,
            LineError::InvalidFilePath(f) => LineError::InvalidFilePath(f.clone()),
            LineError::InvalidFile(f) => LineError::InvalidFile(f.clone()),
            LineError::MissingVfstype => LineError::MissingVfstype,
            LineError::MissingMntops => LineError::MissingMntops,
            LineError::MissingFreq => LineError::MissingFreq,
            LineError::InvalidFreq(f) => LineError::InvalidFreq(f.clone()),
            LineError::MissingPassno => LineError::MissingPassno,
            LineError::InvalidPassno(f) => LineError::InvalidPassno(f.clone()),
        }
    }
}

/// Where a [`ParseError`] comes from.
#[derive(Debug)]
pub enum ParseErrorKind {
    /// The error was made from a message alone.
    Message,
    /// A line of the table is malformed.
    Line {
        /// The number of the line, counted from 0.
        number: usize,
        /// The line, without the white space around it.
        line: String,
        /// What is wrong with the line.
        error: LineError,
    },
    /// The source of the lines failed; the failure in its own words.
    Read(String),
}

/// A [`ParseErrorKind`] as a mathematical value.
pub enum ParseErrorKindView {
    Message,
    Line { number: nat, line: Seq<char>, error: LineErrorView },
    Read(Seq<char>),
}

impl PartialEq for ParseErrorKind {
    fn eq(&self, other: &ParseErrorKind) -> (r: bool) {
        match (self, other) {
            (ParseErrorKind::Message, ParseErrorKind::Message) => true,
            (
                ParseErrorKind::Line { number, line, error },
                ParseErrorKind::Line { number: other_number, line: other_line, error: other_error },
            ) => *number == *other_number && str_eq(line.as_str(), other_line.as_str()) && *error
                == *other_error,
            (ParseErrorKind::Read(a), ParseErrorKind::Read(b)) => str_eq(a.as_str(), b.as_str()),
            _ => false,
        }
    }
}

impl vstd::std_specs::cmp::PartialEqSpecImpl for ParseErrorKind {
    open spec fn obeys_eq_spec() -> bool {
        true
    }

    open spec fn eq_spec(&self, other: &ParseErrorKind) -> bool {
        self@ == other@
    }
}

impl Eq for ParseErrorKind {

}

impl Clone for ParseErrorKind {
    fn clone(&self) -> (r: ParseErrorKind)
        ensures
            r@ == self@,
    {
        match self {
            ParseErrorKind::Message => ParseErrorKind::Message,
            ParseErrorKind::Line { number, line, error } => ParseErrorKind::Line {
                number: *number,
                line: line.clone(),
                error: error.clone(),
            },
            ParseErrorKind::Read(reason) => ParseErrorKind::Read(reason.clone()),
        }
    }
}

impl View for ParseErrorKind {
    type V = ParseErrorKindView;

    open spec fn view(&self) -> ParseErrorKindView {
        match *self {
            ParseErrorKind::Message => ParseErrorKindView::Message,
            ParseErrorKind::Line { number, line, error } => ParseErrorKindView::Line {
                number: number as nat,
                line: line@,
                error: error@,
            },
            ParseErrorKind::Read(reason) => ParseErrorKindView::Read(reason@),
        }
    }
}

/// The error of reading a mount table: a malformed line, or a source of
/// lines that failed.
#[derive(Debug)]
pub struct ParseError {
    desc: String,
    kind: ParseErrorKind,
}

/// A [`ParseError`] as a mathematical value.
pub struct ParseErrorView {
    pub desc: Seq<char>,
    pub kind: ParseErrorKindView,
}

impl View for ParseError {
    type V = ParseErrorView;

    closed spec fn view(&self) -> ParseErrorView {
        ParseErrorView { desc: self.desc@, kind: self.kind@ }
    }
}

impl PartialEq for ParseError {
    fn eq(&self, other: &ParseError) -> (r: bool) {
        str_eq(self.desc.as_str(), other.desc.as_str()) && self.kind == other.kind
    }
}

impl vstd::std_specs::cmp::PartialEqSpecImpl for ParseError {
    open spec fn obeys_eq_spec() -> bool {
        true
    }

    open spec fn eq_spec(&self, other: &ParseError) -> bool {
        self@ == other@
    }
}

impl Eq for ParseError {

}

impl Clone for ParseError {
    fn clone(&self) -> (r: ParseError)
        ensures
            r@ == self@,
    {
        ParseError { desc: self.desc.clone(), kind: self.kind.clone() }
    }
}

/// The description of an error with the given detail.
pub open spec fn description_of(detail: Seq<char>) -> Seq<char> {
    "Mount parsing: "@ + detail
}

/// The error for the malformed line `number`, counted from 0, whose text
/// without the white space around it is `line`.
pub open spec fn line_failure(
    number: nat,
    line: Seq<char>,
    error: LineErrorView,
) -> ParseErrorView {
    ParseErrorView {
        desc: description_of("Failed at line "@ + decimal(number) + ": "@ + error.message()),
        kind: ParseErrorKindView::Line { number, line, error },
    }
}

/// The error for a source of lines that failed with `reason`.
pub open spec fn read_failure(reason: Seq<char>) -> ParseErrorView {
    ParseErrorView {
        desc: description_of("Failed to read the mounts file: "@ + reason),
        kind: ParseErrorKindView::Read(reason),
    }
}

impl ParseError {
    /// An error out of a message.
    pub fn new(detail: String) -> (r: ParseError)
        ensures
            r@ == (ParseErrorView {
                desc: description_of(detail@),
                kind: ParseErrorKindView::Message,
            }),
    {
        ParseError {
            desc: joined("Mount parsing: ", detail.as_str()),
            kind: ParseErrorKind::Message,
        }
    }

    /// The error for a malformed line. Lines are counted from 0; `line` is
    /// the text of the line without the white space around it.
    pub fn at_line(number: usize, line: &str, error: LineError) -> (r: ParseError)
        ensures
            r@ == line_failure(number as nat, line@, error@),
    {
        let mut detail = String::from_str("Failed at line ");
        let digits = decimal_text(number);
        detail.append(digits.as_str());
        detail.append(": ");
        let message = error.to_string();
        detail.append(message.as_str());
        ParseError {
            desc: joined("Mount parsing: ", detail.as_str()),
            kind: ParseErrorKind::Line { number, line: String::from_str(line), error },
        }
    }

    /// The error for a source of lines that failed; `reason` is the failure
    /// in its own words.
    pub fn read(reason: String) -> (r: ParseError)
        ensures
            r@ == read_failure(reason@),
    {
        let detail = joined("Failed to read the mounts file: ", reason.as_str());
        ParseError {
            desc: joined("Mount parsing: ", detail.as_str()),
            kind: ParseErrorKind::Read(reason),
        }
    }

    /// The description of the error.
    pub fn description(&self) -> (r: &str)
        ensures
            r@ == self@.desc,
    {
        self.desc.as_str()
    }

    /// The description of the error, as a text of its own.
    pub fn to_string(&self) -> (r: String)
        ensures
            r@ == self@.desc,
    {
        self.desc.clone()
    }

    /// Where the error comes from.
    pub fn kind(&self) -> (r: &ParseErrorKind)
        ensures
            r@ == self@.kind,
    {
        &self.kind
    }
}

} // verus!
