//! The library error type.

use vstd::prelude::*;

verus! {

#[verifier::external_type_specification]
#[verifier::external_body]
pub struct ExIoError(std::io::Error);

/// Errors produced by the lifemaint library.
#[derive(Debug)]
pub enum Error {
    /// A recurrence spec (`every`/`on`) could not be parsed.
    Schedule(String),
    /// A data file is missing, unreadable, or malformed.
    DataFile(String),
    /// A task references a vendor id that is not defined.
    UnknownVendor { task_id: String, vendor_id: String },
    /// An I/O failure reading or writing a data file.
    Io { path: String, source: std::io::Error },
}

/// What an [`Error`] says, as plain values (the I/O source is left out).
pub enum ErrorView {
    Schedule(Seq<char>),
    DataFile(Seq<char>),
    UnknownVendor { task_id: Seq<char>, vendor_id: Seq<char> },
    Io { path: Seq<char> },
}

impl View for Error {
    type V = ErrorView;

    open spec fn view(&self) -> ErrorView {
        match self {
            Error::Schedule(m) => ErrorView::Schedule(m@),
            Error::DataFile(m) => ErrorView::DataFile(m@),
            Error::UnknownVendor { task_id, vendor_id } => ErrorView::UnknownVendor {
                task_id: task_id@,
                vendor_id: vendor_id@,
            },
            Error::Io { path, source } => ErrorView::Io { path: path@ },
        }
    }
}

/// The text that [`std::io::Error`]'s `Display` writes.
///
/// Calls `ToString::to_string` on the I/O error; nothing is stated of the text,
/// which the operating system may supply.
#[verifier::external_body]
fn io_error_text(e: &std::io::Error) -> String {
    e.to_string()
}

impl Error {
    /// The human-readable message for this error (what the CLI prints).
    pub fn message(&self) -> (res: String)
        ensures
            self matches Error::Schedule(m) ==> res@ == "cannot parse schedule: "@ + m@,
            self matches Error::DataFile(m) ==> res@ == m@,
            self matches Error::UnknownVendor { task_id, vendor_id } ==> res@ == "task "@
                + task_id@ + " references unknown vendor "@ + vendor_id@,
            self matches Error::Io { path, source } ==> res@.take(("io error at "@ + path@
                + ": "@).len() as int) == "io error at "@ + path@ + ": "@,
    {
        match self {
            Error::Schedule(m) => {
                let mut s: String = String::from_str("cannot parse schedule: ");
                s.append(m.as_str());
                s
            },
            Error::DataFile(m) => m.clone(),
            Error::UnknownVendor { task_id, vendor_id } => {
                let mut s: String = String::from_str("task ");
                s.append(task_id.as_str());
                s.append(" references unknown vendor ");
                s.append(vendor_id.as_str());
                s
            },
            Error::Io { path, source } => {
                let mut s: String = String::from_str("io error at ");
                s.append(path.as_str());
                s.append(": ");
                let ghost prefix = s@;
                s.append(io_error_text(source).as_str());
                assert(s@.take(prefix.len() as int) =~= prefix);
                s
            },
        }
    }

    /// The underlying I/O error, for [`Error::Io`].
    pub fn source(&self) -> (res: Option<&std::io::Error>)
        ensures
            res is Some <==> self is Io,
            res matches Some(r) ==> (self matches Error::Io { path, source } && *r == source),
    {
        match self {
            Error::Io { path, source } => Some(source),
            _ => None,
        }
    }
}

} // verus!
