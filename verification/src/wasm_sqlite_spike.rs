//! The interface of a SQLite driver for WebAssembly targets: query rows,
//! errors, and the driver trait. No driver is built in.

use vstd::prelude::*;

use crate::text::push_str;

verus! {

/// One row of query results: column values in declaration order.
#[derive(Debug, Clone, PartialEq, Eq, Default)]
pub struct Row {
    /// Column values in declaration order.
    pub values: Vec<String>,
}

/// Errors of the driver.
#[derive(Debug)]
pub enum WasmSqliteError {
    /// No backend was compiled in.
    NotCompiledIn,
    /// Opening or reading a file failed.
    IoError(String),
    /// SQLite rejected a statement.
    SqlError(String),
}

/// The message of a driver error (what `Display` renders).
pub open spec fn wasm_error_message(e: WasmSqliteError) -> Seq<char> {
    match e {
        WasmSqliteError::NotCompiledIn => "WASM SQLite backend not compiled in (W3a spike only)"@,
        WasmSqliteError::IoError(s) => "WASM SQLite I/O error: "@ + s@,
        WasmSqliteError::SqlError(s) => "WASM SQLite SQL error: "@ + s@,
    }
}

impl WasmSqliteError {
    /// The human-readable message (what `Display` renders).
    pub fn to_string(&self) -> (r: String)
        ensures
            r@ == wasm_error_message(*self),
    {
        match self {
            WasmSqliteError::NotCompiledIn => String::from_str("WASM SQLite backend not compiled in (W3a spike only)"),
            WasmSqliteError::IoError(s) => {
                let mut r = String::from_str("WASM SQLite I/O error: ");
                push_str(&mut r, s.as_str());
                r
            },
            WasmSqliteError::SqlError(s) => {
                let mut r = String::from_str("WASM SQLite SQL error: ");
                push_str(&mut r, s.as_str());
                r
            },
        }
    }
}

/// A SQLite driver for WebAssembly targets.
pub trait WasmSqliteDriver: Sized {
    /// Opens a database at the given virtual path.
    fn open(path: &str) -> Result<Self, WasmSqliteError>;

    /// Executes a statement that produces no rows; the number of rows
    /// affected.
    fn execute(&self, sql: &str) -> Result<usize, WasmSqliteError>;

    /// Executes a query; the resulting rows.
    fn query(&self, sql: &str) -> Result<Vec<Row>, WasmSqliteError>;
}

} // verus!
