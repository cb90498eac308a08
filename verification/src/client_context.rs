//! Per-session bindings: value vectors, position vectors and numeric
//! scalars, with the name-resolution rule that falls back from a session
//! binding to a stored column.

use crate::db::Db;
use crate::parse::{parse_column_var, spec_column_var};
use crate::render::{avg_repr, dec_int};
use crate::strmap::StrMap;
use vstd::prelude::*;

verus! {

pub struct Valvec {
    pub values: Vec<i32>,
}

pub struct Posvec {
    pub positions: Vec<usize>,
}

/// A numeric scalar: an aggregation result. An average is held exactly, as
/// the sum and count it came from, and rendered with two decimals.
pub enum Numval {
    I32(i32),
    I64(i64),
    Avg { sum: i64, count: u64 },
}

impl Numval {
    /// The text a numeric scalar prints as.
    pub open spec fn spec_repr(&self) -> Seq<char> {
        match self {
            Numval::I32(v) => dec_int(*v as int),
            Numval::I64(v) => dec_int(*v as int),
            Numval::Avg { sum, count } => avg_repr(*sum as int, *count as nat),
        }
    }

    pub fn render(&self) -> (r: String)
        ensures
            r@ == self.spec_repr(),
    {
        match self {
            Numval::I32(v) => crate::render::i32_to_string(*v),
            Numval::I64(v) => crate::render::i64_to_string(*v),
            Numval::Avg { sum, count } => crate::render::avg_to_string(*sum, *count),
        }
    }
}

pub struct ClientContext {
    pub valvecs: StrMap<Valvec>,
    pub posvecs: StrMap<Posvec>,
    pub numvals: StrMap<Numval>,
}

/// The value sequence a name denotes: a session value vector if one is
/// bound, else the data of the column the name references as `db.table.column`.
pub open spec fn spec_lookup_values(cc: &ClientContext, db: &Db, name: Seq<char>) -> Option<
    Seq<i32>,
> {
    if cc.valvecs@.contains_key(name) {
        Some(cc.valvecs@[name].values@)
    } else {
        match spec_column_var(name) {
            None => None,
            Some((_, tn, cn)) => if db.tables@.contains_key(tn) {
                let t = db.tables@[tn];
                if exists|i: int| 0 <= i < t.columns@.len() && (#[trigger] t.columns@[i]).name@ == cn {
                    let i = choose|i: int|
                        0 <= i < t.columns@.len() && (#[trigger] t.columns@[i]).name@ == cn;
                    Some(t.columns@[i].data@)
                } else {
                    None
                }
            } else {
                None
            },
        }
    }
}

impl ClientContext {
    pub open spec fn wf(&self) -> bool {
        self.valvecs.wf() && self.posvecs.wf() && self.numvals.wf()
    }

    pub fn new() -> (r: ClientContext)
        ensures
            r.wf(),
            r.valvecs@ == Map::<Seq<char>, Valvec>::empty(),
            r.posvecs@ == Map::<Seq<char>, Posvec>::empty(),
            r.numvals@ == Map::<Seq<char>, Numval>::empty(),
    {
        ClientContext { valvecs: StrMap::new(), posvecs: StrMap::new(), numvals: StrMap::new() }
    }

    /// Resolves a value-vector name: session bindings first, then stored
    /// columns by their `db.table.column` variable.
    pub fn lookup_values_by_name<'a>(&'a self, name: &str, db: &'a Db) -> (r: Option<&'a Vec<i32>>)
        requires
            self.wf(),
            db.wf(),
        ensures
            match r {
                Some(v) => spec_lookup_values(self, db, name@) == Some(v@),
                None => spec_lookup_values(self, db, name@) is None,
            },
    {
        match self.valvecs.get(name) {
            Some(valvec) => Some(&valvec.values),
            None => {
                let (_dbn, tn, cn) = match parse_column_var(name) {
                    Ok(tup) => tup,
                    Err(_) => {
                        return None;
                    },
                };
                let table = match db.tables.get(tn.as_str()) {
                    Some(table) => table,
                    None => {
                        return None;
                    },
                };
                let mut i: usize = 0;
                while i < table.columns.len()
                    invariant
                        i <= table.columns@.len(),
                        self.wf(),
                        db.wf(),
                        !self.valvecs@.contains_key(name@),
                        spec_column_var(name@) == Some((_dbn@, tn@, cn@)),
                        db.tables@.contains_key(tn@),
                        *table == db.tables@[tn@],
                        forall|j: int| 0 <= j < i ==> (#[trigger] table.columns@[j]).name@ != cn@,
                    decreases table.columns@.len() - i,
                {
                    if crate::text::str_eq(table.columns[i].name.as_str(), cn.as_str()) {
                        proof {
                            let t = db.tables@[tn@];
                            assert(t.wf());
                            assert(t.columns@[i as int].name@ == cn@);
                            let w = choose|w: int|
                                0 <= w < t.columns@.len() && (#[trigger] t.columns@[w]).name@
                                    == cn@;
                            assert(w == i as int);
                        }
                        return Some(&table.columns[i].data);
                    }
                    i = i + 1;
                }
                proof {
                    let t = db.tables@[tn@];
                    if exists|w: int|
                        0 <= w < t.columns@.len() && (#[trigger] t.columns@[w]).name@ == cn@ {
                        let w = choose|w: int|
                            0 <= w < t.columns@.len() && (#[trigger] t.columns@[w]).name@ == cn@;
                        assert(false);
                    }
                }
                None
            },
        }
    }
}

} // verus!
