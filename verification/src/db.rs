//! The database: an optional active name and a catalog of tables.

use crate::column::Column;
use crate::command::create::CreateCommandIndexType;
use crate::errors::DbError;
use crate::parse::{
    parse_column_var, parse_table_var, spec_column_var, spec_column_var_has_table, spec_table_var,
};
use crate::strmap::StrMap;
use crate::table::{create_index_conflict, create_index_ok, load_rows_ok, Table};
use vstd::prelude::*;

verus! {

pub struct Db {
    pub name: Option<String>,
    pub tables: StrMap<Table>,
}


/// Whether the table holds a column of the given name.
pub open spec fn spec_has_column(t: Table, cn: Seq<char>) -> bool {
    exists|i: int| 0 <= i < t.columns@.len() && (#[trigger] t.columns@[i]).name@ == cn
}

/// The position of the named column; unique in a well-formed table.
pub open spec fn spec_column_position(t: Table, cn: Seq<char>) -> int {
    choose|i: int| 0 <= i < t.columns@.len() && (#[trigger] t.columns@[i]).name@ == cn
}

/// Activation always succeeds: the active name is set, tables untouched.
pub open spec fn spec_activate_post(db0: Db, db1: Db, db_name: Seq<char>, r: Result<
    (),
    DbError,
>) -> bool {
    &&& r is Ok
    &&& (db1.name matches Some(n) && n@ == db_name)
    &&& db1.tables == db0.tables
}

/// Table creation: succeeds exactly when the database is active under the
/// given name and the table name is fresh, reserving an empty table of the
/// declared width.
pub open spec fn spec_create_table_post(
    db0: Db,
    db1: Db,
    db_var: Seq<char>,
    table_name: Seq<char>,
    n_cols: usize,
    r: Result<(), DbError>,
) -> bool {
    match r {
        Err(e) => db1.tables@ == db0.tables@ && (if !db0.active_matches(db_var) {
            e is DbNotExist
        } else {
            db0.tables@.contains_key(table_name) && e is TableAlreadyExist
        }),
        Ok(_) => db0.active_matches(db_var) && !db0.tables@.contains_key(table_name)
            && db1.tables@ == db0.tables@.insert(table_name, db1.tables@[table_name]) && (
        db1.tables@[table_name].wf() && db1.tables@[table_name].n_cols == n_cols
            && db1.tables@[table_name].n_rows == 0 && db1.tables@[table_name].columns@.len()
            == 0),
    }
}

/// Column creation: succeeds exactly when the variable resolves, the
/// database is active, the table exists, is not full, holds no rows yet and
/// no column of that name; a fresh empty column is appended.
pub open spec fn spec_create_column_post(
    db0: Db,
    db1: Db,
    table_var: Seq<char>,
    column_name: Seq<char>,
    r: Result<(), DbError>,
) -> bool {
    match r {
        Err(e) => db1.tables@ == db0.tables@ && match spec_table_var(table_var) {
            None => e is VarNoTable,
            Some((dbn, tn)) => if !db0.active_matches(dbn) {
                e is DbNotExist
            } else if !db0.tables@.contains_key(tn) {
                e is TableNotExist
            } else if spec_has_column(db0.tables@[tn], column_name) {
                e is ColumnAlreadyExist
            } else if db0.tables@[tn].columns@.len() >= db0.tables@[tn].n_cols {
                e is TableFull
            } else {
                db0.tables@[tn].n_rows != 0 && e is Internal
            },
        },
        Ok(_) => match spec_table_var(table_var) {
            None => false,
            Some((dbn, tn)) => db0.active_matches(dbn) && db0.tables@.contains_key(tn) && ({
                let t = db0.tables@[tn];
                let ft = db1.tables@[tn];
                &&& t.n_rows == 0
                &&& t.columns@.len() < t.n_cols
                &&& !spec_has_column(t, column_name)
                &&& db1.tables@ == db0.tables@.insert(tn, ft)
                &&& ft.columns@.len() == t.columns@.len() + 1
                &&& forall|i: int|
                    0 <= i < t.columns@.len() ==> #[trigger] ft.columns@[i] == t.columns@[i]
                &&& ft.columns@.last().name@ == column_name
                &&& ft.columns@.last().data@ == Seq::<i32>::empty()
                &&& ft.columns@.last().index is NoIndex
                &&& ft.n_cols == t.n_cols
                &&& ft.n_rows == t.n_rows
                &&& ft.primary == t.primary
            }),
        },
    }
}

/// Index creation: succeeds exactly when the variable resolves, the
/// database is active, the table and column exist and the request does not
/// conflict with the clustering; then the table holds the outcome of
/// installing the requested index on that column's position.
pub open spec fn spec_create_index_post(
    db0: Db,
    db1: Db,
    column_var: Seq<char>,
    index_type: CreateCommandIndexType,
    r: Result<(), DbError>,
) -> bool {
    match spec_column_var(column_var) {
        None => db1.tables@ == db0.tables@ && (r matches Err(e) && (
        if spec_column_var_has_table(column_var) {
            e is VarNoColumn
        } else {
            e is VarNoTable
        })),
        Some((dbn, tn, cn)) => if !db0.active_matches(dbn) {
            db1.tables@ == db0.tables@ && (r matches Err(e) && e is DbNotExist)
        } else if !db0.tables@.contains_key(tn) {
            db1.tables@ == db0.tables@ && (r matches Err(e) && e is TableNotExist)
        } else if !spec_has_column(db0.tables@[tn], cn) {
            db1.tables@ == db0.tables@ && (r matches Err(e) && e is ColumnNotExist)
        } else {
            let t = db0.tables@[tn];
            let i = spec_column_position(t, cn);
            match r {
                Err(e) => create_index_conflict(t, i, index_type) && db1.tables@ == db0.tables@
                    && (e matches DbError::Internal(m) && m@
                    == "table already has a clustered column"@),
                Ok(_) => !create_index_conflict(t, i, index_type) && db1.tables@
                    == db0.tables@.insert(tn, db1.tables@[tn]) && create_index_ok(
                    t,
                    db1.tables@[tn],
                    i,
                    index_type,
                ),
            }
        },
    }
}

/// Bulk load: succeeds exactly when the header variable resolves, the
/// database is active, the table exists and the values form whole rows of
/// a fully created table; then the table holds the loaded outcome.
pub open spec fn spec_load_values_post(
    db0: Db,
    db1: Db,
    first_column_var: Seq<char>,
    values: Seq<i32>,
    r: Result<(), DbError>,
) -> bool {
    match spec_column_var(first_column_var) {
        None => db1.tables@ == db0.tables@ && (r matches Err(e) && (
        if spec_column_var_has_table(first_column_var) {
            e is VarNoColumn
        } else {
            e is VarNoTable
        })),
        Some((dbn, tn, _)) => if !db0.active_matches(dbn) {
            db1.tables@ == db0.tables@ && (r matches Err(e) && e is DbNotExist)
        } else if !db0.tables@.contains_key(tn) {
            db1.tables@ == db0.tables@ && (r matches Err(e) && e is TableNotExist)
        } else {
            let t = db0.tables@[tn];
            let ok_shape = t.n_cols > 0 && t.columns@.len() == t.n_cols && (
            values.len() as int) % (t.n_cols as int) == 0;
            match r {
                Err(e) => !ok_shape && db1.tables@ == db0.tables@ && e is Internal,
                Ok(_) => ok_shape && db1.tables@ == db0.tables@.insert(tn, db1.tables@[tn])
                    && load_rows_ok(t, db1.tables@[tn], values),
            }
        },
    }
}

impl Db {
    pub open spec fn wf(&self) -> bool {
        &&& self.tables.wf()
        &&& forall|k: Seq<char>| self.tables@.contains_key(k) ==> (#[trigger] self.tables@[k]).wf()
    }

    /// Whether the active database name matches the given one.
    pub open spec fn active_matches(&self, dbn: Seq<char>) -> bool {
        match self.name {
            Some(n) => n@ == dbn,
            None => false,
        }
    }

    pub fn new() -> (r: Db)
        ensures
            r.wf(),
            r.name is None,
            r.tables@ == Map::<Seq<char>, Table>::empty(),
    {
        Db { name: None, tables: StrMap::new() }
    }

    /// Activates the database under the given name.
    pub fn activate(&mut self, db_name: &str) -> (r: Result<(), DbError>)
        ensures
            spec_activate_post(*old(self), *final(self), db_name@, r),
    {
        self.name = Some(db_name.to_owned());
        Ok(())
    }

    fn check_db_exists(&self, db_name: &str) -> (r: Result<(), DbError>)
        ensures
            match r {
                Ok(_) => self.active_matches(db_name@),
                Err(e) => !self.active_matches(db_name@) && e is DbNotExist,
            },
    {
        match &self.name {
            Some(n) => {
                if crate::text::str_eq(n.as_str(), db_name) {
                    Ok(())
                } else {
                    Err(DbError::DbNotExist)
                }
            },
            None => Err(DbError::DbNotExist),
        }
    }

    /// Creates a fresh table of the given width under the active database.
    pub fn create_table(&mut self, db_var: &str, table_name: &str, n_cols: usize) -> (r: Result<
        (),
        DbError,
    >)
        requires
            old(self).wf(),
        ensures
            final(self).wf(),
            final(self).name == old(self).name,
            spec_create_table_post(*old(self), *final(self), db_var@, table_name@, n_cols, r),
    {
        if let Err(e) = self.check_db_exists(db_var) {
            return Err(e);
        }
        if self.tables.contains(table_name) {
            return Err(DbError::TableAlreadyExist);
        }
        let t = Table::new(n_cols);
        self.tables.insert(table_name, t);
        Ok(())
    }

    /// Adds a column to an existing, not yet full table.
    pub fn create_column(&mut self, table_var: &str, column_name: &str) -> (r: Result<(), DbError>)
        requires
            old(self).wf(),
        ensures
            final(self).wf(),
            final(self).name == old(self).name,
            spec_create_column_post(*old(self), *final(self), table_var@, column_name@, r),
    {
        let (dbn, tn) = match parse_table_var(table_var) {
            Ok(tup) => tup,
            Err(e) => {
                return Err(e);
            },
        };
        if let Err(e) = self.check_db_exists(dbn.as_str()) {
            return Err(e);
        }
        if !self.tables.contains(tn.as_str()) {
            return Err(DbError::TableNotExist);
        }
        let mut t = match self.tables.remove(tn.as_str()) {
            Some(t) => t,
            None => {
                return Err(DbError::TableNotExist);
            },
        };
        let ghost t0 = t;
        let mut i: usize = 0;
        let mut exists_col = false;
        while i < t.columns.len()
            invariant
                t == t0,
                i <= t.columns@.len(),
                exists_col <==> exists|j: int|
                    0 <= j < i && (#[trigger] t.columns@[j]).name@ == column_name@,
            decreases t.columns@.len() - i,
        {
            if crate::text::str_eq(t.columns[i].name.as_str(), column_name) {
                proof {
                    assert(t.columns@[i as int].name@ == column_name@);
                }
                exists_col = true;
            }
            i = i + 1;
        }
        if exists_col {
            proof {
                let w = choose|j: int|
                    0 <= j < t0.columns@.len() && (#[trigger] t0.columns@[j]).name@
                        == column_name@;
                assert(spec_has_column(t0, column_name@));
            }
            self.tables.insert(tn.as_str(), t);
            proof {
                assert(self.tables@ =~= old(self).tables@);
            }
            return Err(DbError::ColumnAlreadyExist);
        }
        proof {
            if spec_has_column(t0, column_name@) {
                let w = choose|i: int|
                    0 <= i < t0.columns@.len() && (#[trigger] t0.columns@[i]).name@
                        == column_name@;
                assert(false);
            }
        }
        if t.columns.len() >= t.n_cols {
            self.tables.insert(tn.as_str(), t);
            proof {
                assert(self.tables@ =~= old(self).tables@);
            }
            return Err(DbError::TableFull);
        }
        if t.n_rows != 0 {
            self.tables.insert(tn.as_str(), t);
            proof {
                assert(self.tables@ =~= old(self).tables@);
            }
            return Err(
                DbError::Internal("cannot add a column to a table that already holds rows".to_owned()),
            );
        }
        let owned = column_name.to_owned();
        let col = Column::new(owned);
        t.columns.push(col);
        proof {
            assert(old(self).tables@[tn@].wf());
            assert(forall|j: int|
                0 <= j < t0.columns@.len() ==> #[trigger] t.columns@[j] == t0.columns@[j]);
            assert(t.wf());
        }
        self.tables.insert(tn.as_str(), t);
        proof {
            assert(self.tables@ =~= old(self).tables@.insert(tn@, self.tables@[tn@]));
        }
        Ok(())
    }

    /// Installs an index on the column a `db.table.column` variable names.
    pub fn create_index(&mut self, column_var: &str, index_type: CreateCommandIndexType) -> (r:
        Result<(), DbError>)
        requires
            old(self).wf(),
        ensures
            final(self).wf(),
            final(self).name == old(self).name,
            spec_create_index_post(*old(self), *final(self), column_var@, index_type, r),
    {
        let (dbn, tn, cn) = match parse_column_var(column_var) {
            Ok(tup) => tup,
            Err(e) => {
                return Err(e);
            },
        };
        if let Err(e) = self.check_db_exists(dbn.as_str()) {
            return Err(e);
        }
        if !self.tables.contains(tn.as_str()) {
            return Err(DbError::TableNotExist);
        }
        let mut t = match self.tables.remove(tn.as_str()) {
            Some(t) => t,
            None => {
                return Err(DbError::TableNotExist);
            },
        };
        let ghost t0 = t;
        let mut i: usize = 0;
        let mut found: Option<usize> = None;
        while i < t.columns.len()
            invariant
                t == t0,
                i <= t.columns@.len(),
                match found {
                    Some(f) => f < i && t.columns@[f as int].name@ == cn@,
                    None => forall|j: int| 0 <= j < i ==> (#[trigger] t.columns@[j]).name@ != cn@,
                },
            decreases t.columns@.len() - i,
        {
            if found.is_none() && crate::text::str_eq(t.columns[i].name.as_str(), cn.as_str()) {
                found = Some(i);
            }
            i = i + 1;
        }
        let ith = match found {
            Some(f) => f,
            None => {
                proof {
                    if spec_has_column(t0, cn@) {
                        let w = choose|i: int|
                            0 <= i < t0.columns@.len() && (#[trigger] t0.columns@[i]).name@
                                == cn@;
                        assert(false);
                    }
                }
                self.tables.insert(tn.as_str(), t);
                proof {
                    assert(self.tables@ =~= old(self).tables@);
                }
                return Err(DbError::ColumnNotExist);
            },
        };
        proof {
            assert(old(self).tables@[tn@].wf());
            assert(spec_has_column(t0, cn@)) by {
                assert(t0.columns@[ith as int].name@ == cn@);
            }
            let w = spec_column_position(t0, cn@);
            assert(0 <= w < t0.columns@.len() && t0.columns@[w].name@ == cn@);
            assert(w == ith as int);
        }
        let res = t.create_index(ith, index_type);
        self.tables.insert(tn.as_str(), t);
        proof {
            if res is Err {
                assert(self.tables@ =~= old(self).tables@);
            } else {
                assert(self.tables@ =~= old(self).tables@.insert(tn@, self.tables@[tn@]));
            }
        }
        match res {
            Ok(_) => Ok(()),
            Err(e) => Err(e),
        }
    }

    /// Bulk-loads row-major values into the table the loaded header's first
    /// column variable names.
    pub fn load_values(&mut self, first_column_var: &str, values: &Vec<i32>) -> (r: Result<
        (),
        DbError,
    >)
        requires
            old(self).wf(),
        ensures
            final(self).wf(),
            final(self).name == old(self).name,
            spec_load_values_post(*old(self), *final(self), first_column_var@, values@, r),
    {
        let (dbn, tn, _cn) = match parse_column_var(first_column_var) {
            Ok(tup) => tup,
            Err(e) => {
                return Err(e);
            },
        };
        if let Err(e) = self.check_db_exists(dbn.as_str()) {
            return Err(e);
        }
        if !self.tables.contains(tn.as_str()) {
            return Err(DbError::TableNotExist);
        }
        let mut t = match self.tables.remove(tn.as_str()) {
            Some(t) => t,
            None => {
                return Err(DbError::TableNotExist);
            },
        };
        let res = t.load_rows(values);
        self.tables.insert(tn.as_str(), t);
        proof {
            if res is Err {
                assert(self.tables@ =~= old(self).tables@);
            } else {
                assert(self.tables@ =~= old(self).tables@.insert(tn@, self.tables@[tn@]));
            }
        }
        res
    }
}

} // verus!
