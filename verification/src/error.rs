//! The errors of the library.

use vstd::prelude::*;
use vstd::string::*;

use crate::db::{sql_type_name, SqlType};
use crate::text::{decimal, decimal_text, join3};

verus! {

/// `rusqlite::Error`, carried as it came.
#[verifier::external_type_specification]
#[verifier::external_body]
pub struct ExSqliteError(rusqlite::Error);

/// Why an operation failed.
#[derive(Debug)]
pub enum CortexError {
    /// The database refused or failed.
    Sqlite(rusqlite::Error),
    /// A column of a row holds another type than the one read, or is missing.
    Column { index: usize, name: &'static str, found: Option<SqlType> },
    /// A query that always answers with a row answered with none.
    NoRow,
    /// A request or a configuration is not acceptable.
    Config(String),
    /// A channel could not deliver a message.
    Channel(String),
}

/// What a `CortexError` says.
pub enum FaultV {
    Sqlite(rusqlite::Error),
    Column { index: usize, name: Seq<char>, found: Option<SqlType> },
    NoRow,
    Config(Seq<char>),
    Channel(Seq<char>),
}

impl DeepView for CortexError {
    type V = FaultV;

    open spec fn deep_view(&self) -> FaultV {
        match *self {
            CortexError::Sqlite(e) => FaultV::Sqlite(e),
            CortexError::Column { index, name, found } => FaultV::Column { index, name: name@, found },
            CortexError::NoRow => FaultV::NoRow,
            CortexError::Config(m) => FaultV::Config(m@),
            CortexError::Channel(m) => FaultV::Channel(m@),
        }
    }
}

/// The result of every fallible operation of the library.
pub type Result<T> = core::result::Result<T, CortexError>;

/// What a result says: its value or its error, each taken by its view.
pub open spec fn outcome<T: DeepView>(r: Result<T>) -> core::result::Result<T::V, FaultV> {
    match r {
        Ok(t) => Ok(t.deep_view()),
        Err(e) => Err(e.deep_view()),
    }
}

/// What a result without a value says.
pub open spec fn done(r: Result<()>) -> core::result::Result<(), FaultV> {
    match r {
        Ok(_) => Ok(()),
        Err(e) => Err(e.deep_view()),
    }
}

impl CortexError {
    /// A configuration error with a message.
    pub fn config(message: &str) -> (r: CortexError)
        ensures
            r.deep_view() == FaultV::Config(message@),
    {
        CortexError::Config(message.to_owned())
    }
}

/// The text that `rusqlite` shows for one of its errors.
pub uninterp spec fn sqlite_text(e: rusqlite::Error) -> Seq<char>;

/// `<rusqlite::Error as Display>::to_string`: the text depends on the error alone.
#[verifier::external_body]
fn sqlite_message(e: &rusqlite::Error) -> (r: String)
    ensures
        r@ == sqlite_text(*e),
{
    e.to_string()
}

/// The text that is shown for an error.
pub open spec fn fault_text(fault: FaultV) -> Seq<char> {
    match fault {
        FaultV::Sqlite(e) => sqlite_text(e),
        FaultV::Column { index, name, found } => match found {
            Some(t) => "Invalid column type "@ + sql_type_name(t) + " at index: "@ + decimal(index as nat) + ", name: "@
                + name,
            None => "Invalid column index: "@ + decimal(index as nat),
        },
        FaultV::NoRow => "Query returned no rows"@,
        FaultV::Config(m) => m,
        FaultV::Channel(m) => m,
    }
}

impl CortexError {
    /// The text that is shown for the error.
    pub fn message(&self) -> (r: String)
        ensures
            r@ == fault_text(self.deep_view()),
    {
        match self {
            CortexError::Sqlite(e) => sqlite_message(e),
            CortexError::Column { index, name, found } => match found {
                Some(t) => {
                    let mut r = join3("Invalid column type ", t.name(), " at index: ");
                    r.append(decimal_text(*index).as_str());
                    r.append(", name: ");
                    r.append(*name);
                    r
                },
                None => {
                    let mut r = "Invalid column index: ".to_owned();
                    r.append(decimal_text(*index).as_str());
                    r
                },
            },
            CortexError::NoRow => "Query returned no rows".to_owned(),
            CortexError::Config(m) => m.clone(),
            CortexError::Channel(m) => m.clone(),
        }
    }
}

}
