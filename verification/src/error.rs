//! What can go wrong, and how it is told.
use vstd::prelude::*;
use vstd::string::*;

verus! {

/// An error, with its message.
#[derive(Debug, PartialEq, Eq)]
pub enum LedgerError {
    Config(String),
    Capture(String),
    Storage(String),
    Security(String),
    Unsupported(String),
    /// A failed file operation.
    Io(String),
    /// A failed reading or writing of JSON.
    Json(String),
    /// A failed writing of TOML.
    TomlSer(String),
}

/// The classes of the exceptions that the Python package raises.
#[derive(Debug, PartialEq, Eq)]
pub enum ExceptionClass {
    AgentLedgerError,
    ConfigError,
    CaptureError,
    StorageError,
    SecurityError,
}

impl LedgerError {
    /// The message without the words on the kind of error.
    pub open spec fn detail(self) -> Seq<char> {
        match self {
            LedgerError::Config(m) => m@,
            LedgerError::Capture(m) => m@,
            LedgerError::Storage(m) => m@,
            LedgerError::Security(m) => m@,
            LedgerError::Unsupported(m) => m@,
            LedgerError::Io(m) => m@,
            LedgerError::Json(m) => m@,
            LedgerError::TomlSer(m) => m@,
        }
    }

    /// The words on the kind of error that stand before the message.
    pub open spec fn prefix(self) -> Seq<char> {
        match self {
            LedgerError::Config(_) => "configuration error: "@,
            LedgerError::Capture(_) => "capture error: "@,
            LedgerError::Storage(_) => "storage error: "@,
            LedgerError::Security(_) => "security error: "@,
            LedgerError::Unsupported(_) => "unsupported operation: "@,
            _ => Seq::empty(),
        }
    }

    /// The exception class of an error.
    pub open spec fn class(self) -> ExceptionClass {
        match self {
            LedgerError::Config(_) => ExceptionClass::ConfigError,
            LedgerError::Capture(_) => ExceptionClass::CaptureError,
            LedgerError::Storage(_) => ExceptionClass::StorageError,
            LedgerError::Security(_) => ExceptionClass::SecurityError,
            LedgerError::Unsupported(_) => ExceptionClass::AgentLedgerError,
            LedgerError::Io(_) => ExceptionClass::StorageError,
            LedgerError::Json(_) => ExceptionClass::StorageError,
            LedgerError::TomlSer(_) => ExceptionClass::ConfigError,
        }
    }

    /// The message as it is shown.
    pub fn message(&self) -> (r: String)
        ensures
            r@ == self.prefix() + self.detail(),
    {
        let mut out = String::new();
        match self {
            LedgerError::Config(m) => {
                out.append("configuration error: ");
                out.append(m.as_str());
            },
            LedgerError::Capture(m) => {
                out.append("capture error: ");
                out.append(m.as_str());
            },
            LedgerError::Storage(m) => {
                out.append("storage error: ");
                out.append(m.as_str());
            },
            LedgerError::Security(m) => {
                out.append("security error: ");
                out.append(m.as_str());
            },
            LedgerError::Unsupported(m) => {
                out.append("unsupported operation: ");
                out.append(m.as_str());
            },
            LedgerError::Io(m) => out.append(m.as_str()),
            LedgerError::Json(m) => out.append(m.as_str()),
            LedgerError::TomlSer(m) => out.append(m.as_str()),
        }
        assert(out@ =~= self.prefix() + self.detail());
        out
    }
}

/// The exception that an error is raised as: its class, and the message without the words on the
/// kind of error.
pub fn to_py_err(err: LedgerError) -> (r: (ExceptionClass, String))
    ensures
        r.0 == err.class(),
        r.1@ == err.detail(),
{
    match err {
        LedgerError::Config(m) => (ExceptionClass::ConfigError, m),
        LedgerError::Capture(m) => (ExceptionClass::CaptureError, m),
        LedgerError::Storage(m) => (ExceptionClass::StorageError, m),
        LedgerError::Security(m) => (ExceptionClass::SecurityError, m),
        LedgerError::Unsupported(m) => (ExceptionClass::AgentLedgerError, m),
        LedgerError::Io(m) => (ExceptionClass::StorageError, m),
        LedgerError::Json(m) => (ExceptionClass::StorageError, m),
        LedgerError::TomlSer(m) => (ExceptionClass::ConfigError, m),
    }
}

/// How each kind of error is told, and as what it is raised.
pub proof fn errors_are_told_by_their_kind(m: String)
    ensures
        LedgerError::Config(m).prefix() == "configuration error: "@,
        LedgerError::Capture(m).prefix() == "capture error: "@,
        LedgerError::Storage(m).prefix() == "storage error: "@,
        LedgerError::Security(m).prefix() == "security error: "@,
        LedgerError::Unsupported(m).prefix() == "unsupported operation: "@,
        LedgerError::Io(m).prefix().len() == 0,
        LedgerError::Json(m).prefix().len() == 0,
        LedgerError::TomlSer(m).prefix().len() == 0,
        LedgerError::Config(m).class() == ExceptionClass::ConfigError,
        LedgerError::TomlSer(m).class() == ExceptionClass::ConfigError,
        LedgerError::Capture(m).class() == ExceptionClass::CaptureError,
        LedgerError::Storage(m).class() == ExceptionClass::StorageError,
        LedgerError::Io(m).class() == ExceptionClass::StorageError,
        LedgerError::Json(m).class() == ExceptionClass::StorageError,
        LedgerError::Security(m).class() == ExceptionClass::SecurityError,
        LedgerError::Unsupported(m).class() == ExceptionClass::AgentLedgerError,
{
}

/// The message of an error is told whole.
pub proof fn messages_are_told_whole(m: String)
    ensures
        LedgerError::Config(m).detail() == m@ && LedgerError::Capture(m).detail() == m@,
        LedgerError::Storage(m).detail() == m@ && LedgerError::Security(m).detail() == m@,
        LedgerError::Unsupported(m).detail() == m@ && LedgerError::Io(m).detail() == m@,
        LedgerError::Json(m).detail() == m@ && LedgerError::TomlSer(m).detail() == m@,
{
}

} // verus!
