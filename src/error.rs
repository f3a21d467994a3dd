use vstd::prelude::*;

verus! {

/// Why a command was refused. Every kind is recoverable.
#[derive(PartialEq, Eq, Structural, Clone, Copy, Debug)]
pub enum DbError {
    /// A database, table or column of that name is already there.
    AlreadyExists,
    /// No database or table of that name.
    NotFound,
    /// No database has been selected with `USE`.
    NoActiveDatabase,
    /// The selected database has been dropped since.
    ActiveDatabaseMissing,
    /// A column name that the table's header does not hold.
    UnknownColumn,
    /// An insert with as many values as the table has not columns.
    Arity,
    /// A literal that does not read as its column's type.
    TypeMismatch,
    /// The table holds as many rows as its row count can count.
    TableFull,
    /// Command text that the command language does not read.
    ParseError,
}

} // verus!
