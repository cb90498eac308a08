//! The error kinds the engine carries, and the text each renders to at the
//! protocol boundary.

use vstd::prelude::*;

verus! {

#[derive(Debug)]
pub enum DbError {
    DbNotExist,
    DbAlreadyExist,
    TableNotExist,
    TableAlreadyExist,
    TableFull,
    ColumnNotExist,
    ColumnAlreadyExist,
    VarNoDb,
    VarNoTable,
    VarNoColumn,
    ValvecNotExist,
    PosvecNotExist,
    NumvalNotExist,
    Internal(String),
}

impl DbError {
    /// The rendered text of the error, as responses carry it.
    pub open spec fn spec_text(&self) -> Seq<char> {
        match self {
            DbError::DbNotExist => "Database does not exist"@,
            DbError::DbAlreadyExist => "Database already exists"@,
            DbError::TableNotExist => "Table does not exist"@,
            DbError::TableAlreadyExist => "Table already exists"@,
            DbError::TableFull => "Table cannot hold more columns"@,
            DbError::ColumnNotExist => "Column does not exist"@,
            DbError::ColumnAlreadyExist => "Column already exists"@,
            DbError::VarNoDb => "Variable does not include a database component"@,
            DbError::VarNoTable => "Variable does not include a table component"@,
            DbError::VarNoColumn => "Variable does not include a column component"@,
            DbError::ValvecNotExist => "Value vector does not exist"@,
            DbError::PosvecNotExist => "Position vector does not exist"@,
            DbError::NumvalNotExist => "Numeric value does not exist"@,
            DbError::Internal(msg) => "Internal execution error: "@ + msg@,
        }
    }

    pub fn text(&self) -> (r: String)
        ensures
            r@ == self.spec_text(),
    {
        match self {
            DbError::DbNotExist => "Database does not exist".to_owned(),
            DbError::DbAlreadyExist => "Database already exists".to_owned(),
            DbError::TableNotExist => "Table does not exist".to_owned(),
            DbError::TableAlreadyExist => "Table already exists".to_owned(),
            DbError::TableFull => "Table cannot hold more columns".to_owned(),
            DbError::ColumnNotExist => "Column does not exist".to_owned(),
            DbError::ColumnAlreadyExist => "Column already exists".to_owned(),
            DbError::VarNoDb => "Variable does not include a database component".to_owned(),
            DbError::VarNoTable => "Variable does not include a table component".to_owned(),
            DbError::VarNoColumn => "Variable does not include a column component".to_owned(),
            DbError::ValvecNotExist => "Value vector does not exist".to_owned(),
            DbError::PosvecNotExist => "Position vector does not exist".to_owned(),
            DbError::NumvalNotExist => "Numeric value does not exist".to_owned(),
            DbError::Internal(msg) => {
                let mut r = "Internal execution error: ".to_owned();
                r.append(msg.as_str());
                r
            },
        }
    }
}

} // verus!
