//! The errors of packing and unpacking.

use vstd::prelude::*;
use vstd::string::StringExecFns;

verus! {

/// `std::io::Error`, carried through as an opaque value.
#[verifier::external_type_specification]
#[verifier::external_body]
pub struct ExIoError(std::io::Error);

/// The errors that may occur.
#[derive(Debug)]
pub enum EasypackError {
    /// A generic IO Error
    IoError(std::io::Error),
    /// When the input file is wrong and unreadable.
    InvalidFileError(String),
    /// If the record is too big to be described in the container.
    RecordTooBig(String),
    /// If the record name is too long.
    RecordNameTooBig(String),
    /// If the same record name is used twice.
    RecordSameName(String),
    /// Internal error.
    InternalError(String),
}

/// Which of the errors an [`EasypackError`] is, without its message.
#[derive(Clone, Copy, Debug, PartialEq, Eq, Structural)]
pub enum ErrorKind {
    Io,
    InvalidFile,
    RecordTooBig,
    RecordNameTooBig,
    RecordSameName,
    Internal,
}

/// What `{:?}` prints for a string with these characters: the text between double quotes, with
/// the characters that need it escaped.
pub uninterp spec fn debug_text(text: Seq<char>) -> Seq<char>;

/// `<str as Debug>::fmt`, through `format!`: the result is the debug rendering of `text`, which
/// depends on the characters of `text` alone.
#[verifier::external_body]
fn debug_string(text: &str) -> (quoted: String)
    ensures
        quoted@ == debug_text(text@),
{
    format!("{text:?}")
}

/// `<std::io::Error as Debug>::fmt`, through `format!`. Nothing is claimed of the text.
#[verifier::external_body]
fn io_error_debug_string(error: &std::io::Error) -> (text: String) {
    format!("{error:?}")
}

/// The name of a variant followed by its content in round brackets.
pub open spec fn variant_text(name: Seq<char>, content: Seq<char>) -> Seq<char> {
    name + seq!['('] + content + seq![')']
}

impl ErrorKind {
    /// The name of the variant of [`EasypackError`] that has this kind.
    pub open spec fn name(self) -> Seq<char> {
        match self {
            ErrorKind::Io => "IoError"@,
            ErrorKind::InvalidFile => "InvalidFileError"@,
            ErrorKind::RecordTooBig => "RecordTooBig"@,
            ErrorKind::RecordNameTooBig => "RecordNameTooBig"@,
            ErrorKind::RecordSameName => "RecordSameName"@,
            ErrorKind::Internal => "InternalError"@,
        }
    }
}

impl EasypackError {
    pub open spec fn spec_kind(&self) -> ErrorKind {
        match self {
            EasypackError::IoError(_) => ErrorKind::Io,
            EasypackError::InvalidFileError(_) => ErrorKind::InvalidFile,
            EasypackError::RecordTooBig(_) => ErrorKind::RecordTooBig,
            EasypackError::RecordNameTooBig(_) => ErrorKind::RecordNameTooBig,
            EasypackError::RecordSameName(_) => ErrorKind::RecordSameName,
            EasypackError::InternalError(_) => ErrorKind::Internal,
        }
    }

    /// Which error this is.
    #[verifier::when_used_as_spec(spec_kind)]
    pub fn kind(&self) -> (kind: ErrorKind)
        ensures
            kind == self.spec_kind(),
    {
        match self {
            EasypackError::IoError(_) => ErrorKind::Io,
            EasypackError::InvalidFileError(_) => ErrorKind::InvalidFile,
            EasypackError::RecordTooBig(_) => ErrorKind::RecordTooBig,
            EasypackError::RecordNameTooBig(_) => ErrorKind::RecordNameTooBig,
            EasypackError::RecordSameName(_) => ErrorKind::RecordSameName,
            EasypackError::InternalError(_) => ErrorKind::Internal,
        }
    }

    /// The message that the error carries; an IO error carries none.
    pub open spec fn message(&self) -> Option<Seq<char>> {
        match self {
            EasypackError::IoError(_) => None,
            EasypackError::InvalidFileError(m) => Some(m@),
            EasypackError::RecordTooBig(m) => Some(m@),
            EasypackError::RecordNameTooBig(m) => Some(m@),
            EasypackError::RecordSameName(m) => Some(m@),
            EasypackError::InternalError(m) => Some(m@),
        }
    }

    /// The error as text: the variant's name and, in round brackets, its content as `{:?}`
    /// prints it.
    pub fn to_string(&self) -> (text: String)
        ensures
            match self.message() {
                Some(m) => text@ == variant_text(self.kind().name(), debug_text(m)),
                None => exists|content: Seq<char>|
                    text@ == variant_text(self.kind().name(), content),
            },
    {
        let content = match self {
            EasypackError::IoError(e) => io_error_debug_string(e),
            EasypackError::InvalidFileError(m) => debug_string(m.as_str()),
            EasypackError::RecordTooBig(m) => debug_string(m.as_str()),
            EasypackError::RecordNameTooBig(m) => debug_string(m.as_str()),
            EasypackError::RecordSameName(m) => debug_string(m.as_str()),
            EasypackError::InternalError(m) => debug_string(m.as_str()),
        };
        variant_string(self.kind(), content.as_str())
    }
}

/// The text of a variant of [`EasypackError`]: its name and, in round brackets, `content`.
pub fn variant_string(kind: ErrorKind, content: &str) -> (text: String)
    ensures
        text@ == variant_text(kind.name(), content@),
{
    let mut text = match kind {
        ErrorKind::Io => String::from_str("IoError"),
        ErrorKind::InvalidFile => String::from_str("InvalidFileError"),
        ErrorKind::RecordTooBig => String::from_str("RecordTooBig"),
        ErrorKind::RecordNameTooBig => String::from_str("RecordNameTooBig"),
        ErrorKind::RecordSameName => String::from_str("RecordSameName"),
        ErrorKind::Internal => String::from_str("InternalError"),
    };
    proof {
        reveal_strlit("(");
        reveal_strlit(")");
        assert("("@ =~= seq!['(']);
        assert(")"@ =~= seq![')']);
    }
    text.append("(");
    text.append(content);
    text.append(")");
    text
}

impl From<std::io::Error> for EasypackError {
    fn from(e: std::io::Error) -> (error: Self) {
        EasypackError::IoError(e)
    }
}

impl vstd::std_specs::convert::FromSpecImpl<std::io::Error> for EasypackError {
    open spec fn obeys_from_spec() -> bool {
        true
    }

    open spec fn from_spec(e: std::io::Error) -> Self {
        EasypackError::IoError(e)
    }
}

} // verus!
