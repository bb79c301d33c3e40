//! Per-file diagnostics: each failing line is kept with its position and
//! rendered, calendar-agnostically, in one shared shape.
use vstd::prelude::*;

use crate::calender::LineError;
use crate::strutil::spaces;
use crate::strutil::spec_nat_digits;
use crate::strutil::spec_spaces;
use crate::strutil::usize_string;

verus! {

/// One failing line: what went wrong, the one-based line number, and the
/// line's text.
#[derive(Clone, Debug, PartialEq)]
pub struct ValueError {
    pub line_error: LineError,
    pub line_number: usize,
    pub line: String,
}

/// The diagnostics collected for one file.
#[derive(Clone, Debug, PartialEq)]
pub struct Error {
    pub path: String,
    pub errors: Vec<ValueError>,
}

/// The rendered note for a line whose values were out of range.
pub open spec fn spec_invalid_value(message: Seq<char>, n: nat, line: Seq<char>) -> Seq<char> {
    let ls = spec_nat_digits(n);
    let sp = spec_spaces(ls.len());
    seq![':'] + ls + "\n"@ + sp + " |\n"@ + ls + " | "@ + line + "\n"@ + sp + " |\n"@ + sp
        + " = note: "@ + message + "\n\n\n"@
}

/// The rendered note for a line no grammar recognised.
pub open spec fn spec_cant_parse_input(n: nat, line: Seq<char>) -> Seq<char> {
    spec_invalid_value("can't parse input."@, n, line)
}

/// Renders the out-of-range note: the line number, the offending line, and
/// the cause.
pub fn invalid_value(message: String, line_number: usize, line: String) -> (r: String)
    ensures
        r@ == spec_invalid_value(message@, line_number as nat, line@),
{
    let ls = usize_string(line_number);
    let sp = spaces(ls.as_str().unicode_len());
    let mut r = String::from_str(":");
    r.append(ls.as_str());
    r.append("\n");
    r.append(sp.as_str());
    r.append(" |\n");
    r.append(ls.as_str());
    r.append(" | ");
    r.append(line.as_str());
    r.append("\n");
    r.append(sp.as_str());
    r.append(" |\n");
    r.append(sp.as_str());
    r.append(" = note: ");
    r.append(message.as_str());
    r.append("\n\n\n");
    proof {
        reveal_strlit(":");
        assert(":"@ =~= seq![':']);
        assert(r@ =~= spec_invalid_value(message@, line_number as nat, line@));
    }
    r
}

/// Renders the unrecognised-line note.
pub fn cant_parse_input(line_number: usize, line: String) -> (r: String)
    ensures
        r@ == spec_cant_parse_input(line_number as nat, line@),
{
    invalid_value(String::from_str("can't parse input."), line_number, line)
}

/// The rendered text of one failing line, by the kind of its failure.
pub open spec fn spec_value_error_format(v: ValueError) -> Seq<char> {
    match v.line_error {
        LineError::CantParseInput => spec_cant_parse_input(v.line_number as nat, v.line@),
        LineError::InvalidValue(m) => spec_invalid_value(m@, v.line_number as nat, v.line@),
        LineError::ParsingError { error, message, column } => error@ + "\n\n"@,
    }
}

impl ValueError {
    /// Records one failing line.
    pub fn new(line_error: LineError, line_number: usize, line: String) -> (r: ValueError)
        ensures
            r.line_error == line_error,
            r.line_number == line_number,
            r.line == line,
    {
        ValueError { line_error, line_number, line }
    }

    /// Renders this failing line.
    pub fn format(&self) -> (r: String)
        ensures
            r@ == spec_value_error_format(*self),
    {
        match &self.line_error {
            LineError::CantParseInput => cant_parse_input(self.line_number, self.line.clone()),
            LineError::InvalidValue(m) => invalid_value(
                m.clone(),
                self.line_number,
                self.line.clone(),
            ),
            LineError::ParsingError { error, message, column } => {
                let mut r = error.clone();
                r.append("\n\n");
                r
            },
        }
    }
}

/// The rendered text of a whole file's diagnostics, one block per line, each
/// naming the file.
pub open spec fn spec_error_format(path: Seq<char>, errs: Seq<ValueError>) -> Seq<char>
    decreases errs.len(),
{
    if errs.len() == 0 {
        Seq::<char>::empty()
    } else {
        spec_error_format(path, errs.drop_last()) + "error: -> "@ + path + spec_value_error_format(
            errs.last(),
        )
    }
}

impl Error {
    /// Opens an empty diagnostic collection for a file.
    pub fn new(path: String) -> (r: Error)
        ensures
            r.path == path,
            r.errors@ =~= Seq::<ValueError>::empty(),
    {
        Error { path, errors: Vec::new() }
    }

    /// Adds one failing line.
    pub fn push(&mut self, error: ValueError)
        ensures
            final (self).path == old(self).path,
            final (self).errors@ == old(self).errors@.push(error),
    {
        self.errors.push(error);
    }

    /// Whether no line failed.
    pub fn is_empty(&self) -> (r: bool)
        ensures
            r == (self.errors@.len() == 0),
    {
        self.errors.len() == 0
    }

    /// Renders every collected diagnostic.
    pub fn format(self) -> (r: String)
        ensures
            r@ == spec_error_format(self.path@, self.errors@),
    {
        let mut r = String::new();
        let mut i: usize = 0;
        let n = self.errors.len();
        proof {
            assert(self.errors@.take(0) =~= Seq::<ValueError>::empty());
        }
        while i < n
            invariant
                i <= n,
                n == self.errors@.len(),
                r@ == spec_error_format(self.path@, self.errors@.take(i as int)),
            decreases n - i,
        {
            r.append("error: -> ");
            r.append(self.path.as_str());
            let block = self.errors[i].format();
            r.append(block.as_str());
            proof {
                assert(self.errors@.take(i + 1).drop_last() =~= self.errors@.take(i as int));
                assert(self.errors@.take(i + 1).last() == self.errors@[i as int]);
                assert(r@ =~= spec_error_format(self.path@, self.errors@.take(i + 1)));
            }
            i = i + 1;
        }
        proof {
            assert(self.errors@.take(n as int) =~= self.errors@);
        }
        r
    }
}

/// An input/output failure on one file, kept as the file and the failure's
/// text.
#[derive(Clone, Debug, PartialEq)]
pub struct FileError {
    pub file: String,
    pub message: String,
}

/// The rendered text of a file failure.
pub open spec fn spec_file_error_format(file: Seq<char>, message: Seq<char>) -> Seq<char> {
    "I/O error while processing file: "@ + file + "\nCaused by:\n\t"@ + message
}

impl FileError {
    /// Records a file failure.
    pub fn new(file: String, message: String) -> (r: FileError)
        ensures
            r.file == file,
            r.message == message,
    {
        FileError { file, message }
    }

    /// Renders this failure.
    pub fn format(&self) -> (r: String)
        ensures
            r@ == spec_file_error_format(self.file@, self.message@),
    {
        let mut r = String::from_str("I/O error while processing file: ");
        r.append(self.file.as_str());
        r.append("\nCaused by:\n\t");
        r.append(self.message.as_str());
        proof {
            assert(r@ =~= spec_file_error_format(self.file@, self.message@));
        }
        r
    }
}

} // verus!
