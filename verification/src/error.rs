//! The ways in which an operation of this library fails.
//!
//! No function of the library ends the process: each failure is a value, and
//! [`Error::exit_code`] gives the status with which a program should end.

use vstd::prelude::*;

verus! {

/// The kind that a field of a document is expected to have.
#[derive(Debug, Clone, Copy, PartialEq, Eq, Structural)]
pub enum Kind {
    /// A table.
    Table,
    /// A string.
    Text,
}

/// The operation that looked for a mirror in vain.
#[derive(Debug, Clone, Copy, PartialEq, Eq, Structural)]
pub enum Operation {
    /// Switching to the mirror.
    Select,
    /// Removing the mirror.
    Remove,
    /// Probing the mirror.
    Test,
}

/// A failed operation.
#[derive(Debug)]
pub enum Error {
    /// No mirror name was given.
    MissingName,
    /// No index address was given.
    MissingAddress,
    /// No download template was given.
    MissingDownload,
    /// The command is none of this program's.
    UnknownCommand { command: String },
    /// The package manager's configuration exists in both of its file names.
    ConfigAmbiguous,
    /// The package manager's configuration is no TOML document.
    ConfigParse,
    /// A field of the package manager's configuration has the wrong kind.
    ConfigSchema { field: String, expected: Kind },
    /// A built-in mirror cannot be removed.
    BuiltinProtected,
    /// The catalog holds no mirror of that name.
    MirrorNotFound { name: String, operation: Operation },
    /// The catalog file is no TOML document.
    CatalogParse,
    /// The catalog's `source` is not a table.
    CatalogSourceNotTable,
    /// An entry of the catalog lacks its index address or its download
    /// template, or holds something else than a string there.
    CatalogMissingField { name: String },
    /// An entry of the catalog is not a table.
    CatalogEntryNotTable { name: String },
}

/// An [`Error`] with its texts as character sequences.
pub enum ErrorView {
    MissingName,
    MissingAddress,
    MissingDownload,
    UnknownCommand { command: Seq<char> },
    ConfigAmbiguous,
    ConfigParse,
    ConfigSchema { field: Seq<char>, expected: Kind },
    BuiltinProtected,
    MirrorNotFound { name: Seq<char>, operation: Operation },
    CatalogParse,
    CatalogSourceNotTable,
    CatalogMissingField { name: Seq<char> },
    CatalogEntryNotTable { name: Seq<char> },
}

impl View for Error {
    type V = ErrorView;

    open spec fn view(&self) -> ErrorView {
        match self {
            Error::MissingName => ErrorView::MissingName,
            Error::MissingAddress => ErrorView::MissingAddress,
            Error::MissingDownload => ErrorView::MissingDownload,
            Error::UnknownCommand { command } => ErrorView::UnknownCommand { command: command@ },
            Error::ConfigAmbiguous => ErrorView::ConfigAmbiguous,
            Error::ConfigParse => ErrorView::ConfigParse,
            Error::ConfigSchema { field, expected } => ErrorView::ConfigSchema {
                field: field@,
                expected: *expected,
            },
            Error::BuiltinProtected => ErrorView::BuiltinProtected,
            Error::MirrorNotFound { name, operation } => ErrorView::MirrorNotFound {
                name: name@,
                operation: *operation,
            },
            Error::CatalogParse => ErrorView::CatalogParse,
            Error::CatalogSourceNotTable => ErrorView::CatalogSourceNotTable,
            Error::CatalogMissingField { name } => ErrorView::CatalogMissingField { name: name@ },
            Error::CatalogEntryNotTable { name } => ErrorView::CatalogEntryNotTable {
                name: name@,
            },
        }
    }
}

/// The exit status for each failure.
pub open spec fn exit_code_of(e: ErrorView) -> u8 {
    match e {
        ErrorView::MissingName => 1,
        ErrorView::MissingAddress => 2,
        ErrorView::MissingDownload => 3,
        ErrorView::UnknownCommand { .. } => 4,
        ErrorView::ConfigAmbiguous => 14,
        ErrorView::ConfigParse => 5,
        ErrorView::ConfigSchema { .. } => 5,
        ErrorView::BuiltinProtected => 11,
        ErrorView::MirrorNotFound { operation, .. } => match operation {
            Operation::Remove => 12,
            _ => 13,
        },
        ErrorView::CatalogParse => 14,
        ErrorView::CatalogSourceNotTable => 15,
        ErrorView::CatalogMissingField { .. } => 16,
        ErrorView::CatalogEntryNotTable { .. } => 17,
    }
}

impl Error {
    /// The status with which a program that met this failure should end. It
    /// is never zero.
    pub fn exit_code(&self) -> (code: u8)
        ensures
            code == exit_code_of(self@),
            code != 0,
    {
        match self {
            Error::MissingName => 1,
            Error::MissingAddress => 2,
            Error::MissingDownload => 3,
            Error::UnknownCommand { .. } => 4,
            Error::ConfigAmbiguous => 14,
            Error::ConfigParse => 5,
            Error::ConfigSchema { .. } => 5,
            Error::BuiltinProtected => 11,
            Error::MirrorNotFound { operation, .. } => match operation {
                Operation::Remove => 12,
                _ => 13,
            },
            Error::CatalogParse => 14,
            Error::CatalogSourceNotTable => 15,
            Error::CatalogMissingField { .. } => 16,
            Error::CatalogEntryNotTable { .. } => 17,
        }
    }

    /// A schema failure of the package manager's configuration.
    pub fn schema(field: &str, expected: Kind) -> (e: Error)
        ensures
            e@ == (ErrorView::ConfigSchema { field: field@, expected }),
    {
        Error::ConfigSchema { field: field.to_owned(), expected }
    }

    /// The failure to find the mirror `name` during `operation`.
    pub fn not_found(name: &str, operation: Operation) -> (e: Error)
        ensures
            e@ == (ErrorView::MirrorNotFound { name: name@, operation }),
    {
        Error::MirrorNotFound { name: name.to_owned(), operation }
    }
}

} // verus!
