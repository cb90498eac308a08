//! Tables: a fixed-width set of equal-length columns, row inserts that
//! maintain every index, bulk loads, index creation with primary clustering,
//! and index recreation after a restart.

use crate::column::{
    btree_wf, lemma_insert_at_binsearch_sorted, spec_binsearch, Column, ColumnIndex,
};
use crate::command::create::CreateCommandIndexType;
use crate::errors::DbError;
use crate::model::{gather_i32_exec, gather_values, is_sorter_for, permuted_view, sorted};
use crate::render::dec_int;
use vstd::prelude::*;

verus! {

/// A coarse tag for an index variant, used to state which operations keep
/// the variant of an index while rebuilding its auxiliary structure.
pub open spec fn index_kind(idx: ColumnIndex) -> int {
    match idx {
        ColumnIndex::NoIndex => 0,
        ColumnIndex::UnclusteredSorted { .. } => 1,
        ColumnIndex::UnclusteredBTree { .. } => 2,
        ColumnIndex::ClusteredSorted => 3,
        ColumnIndex::ClusteredBTree { .. } => 4,
    }
}

pub struct Table {
    pub columns: Vec<Column>,
    pub primary: Option<usize>,
    pub n_rows: usize,
    pub n_cols: usize,
}

/// All columns hold the data of the same rows reordered by one permutation.
pub open spec fn co_permuted(old_cols: Seq<Column>, new_cols: Seq<Column>, perm: Seq<usize>)
    -> bool {
    &&& new_cols.len() == old_cols.len()
    &&& forall|k: int|
        0 <= k < new_cols.len() ==> (#[trigger] new_cols[k]).data@ == gather_values(
            old_cols[k].data@,
            perm,
        )
}

impl Table {
    /// Structural soundness: every column as long as the row count, names
    /// distinct, at most the declared width, and exactly the primary column
    /// clustered.
    pub open spec fn shape_wf(&self) -> bool {
        &&& self.columns@.len() <= self.n_cols
        &&& forall|i: int|
            0 <= i < self.columns@.len() ==> (#[trigger] self.columns@[i]).data@.len()
                == self.n_rows
        &&& forall|i: int, j: int|
            0 <= i < j < self.columns@.len() ==> self.columns@[i].name@ != self.columns@[j].name@
        &&& match self.primary {
            Some(p) => p < self.columns@.len() && self.columns@[p as int].is_clustered() && forall|
                i: int,
            |
                0 <= i < self.columns@.len() && i != p ==> !(
                #[trigger] self.columns@[i]).is_clustered(),
            None => forall|i: int|
                0 <= i < self.columns@.len() ==> !(#[trigger] self.columns@[i]).is_clustered(),
        }
    }

    /// Every index is faithful to its column's data.
    pub open spec fn indexes_wf(&self) -> bool {
        forall|i: int| 0 <= i < self.columns@.len() ==> (#[trigger] self.columns@[i]).index_wf()
    }

    pub open spec fn wf(&self) -> bool {
        self.shape_wf() && self.indexes_wf()
    }

    pub fn new(n_cols: usize) -> (r: Table)
        ensures
            r.wf(),
            r.columns@.len() == 0,
            r.primary is None,
            r.n_rows == 0,
            r.n_cols == n_cols,
    {
        Table { columns: Vec::new(), primary: None, n_rows: 0, n_cols }
    }

    /// Rebuilds every unclustered index from its column's current data;
    /// other indexes are left untouched.
    fn recreate_unclustered_indexes(&mut self)
        ensures
            final(self).columns@.len() == old(self).columns@.len(),
            final(self).primary == old(self).primary,
            final(self).n_rows == old(self).n_rows,
            final(self).n_cols == old(self).n_cols,
            forall|k: int|
                0 <= k < final(self).columns@.len() ==> (#[trigger] final(self).columns@[k]).name
                    == old(self).columns@[k].name && final(self).columns@[k].data == old(self).columns@[k].data && index_kind(final(self).columns@[k].index) == index_kind(
                    old(self).columns@[k].index,
                ),
            forall|k: int|
                0 <= k < final(self).columns@.len() ==> match old(self).columns@[k].index {
                    ColumnIndex::UnclusteredSorted { .. } => (#[trigger] final(self).columns@[k]).index_wf(),
                    ColumnIndex::UnclusteredBTree { .. } => final(self).columns@[k].index_wf(),
                    _ => final(self).columns@[k].index == old(self).columns@[k].index,
                },
    {
        let n = self.columns.len();
        let mut k: usize = 0;
        while k < n
            invariant
                n == self.columns@.len(),
                k <= n,
                self.columns@.len() == old(self).columns@.len(),
                self.primary == old(self).primary,
                self.n_rows == old(self).n_rows,
                self.n_cols == old(self).n_cols,
                forall|j: int|
                    0 <= j < n ==> (#[trigger] self.columns@[j]).name == old(self).columns@[j].name && self.columns@[j].data == old(self).columns@[j].data
                        && index_kind(self.columns@[j].index) == index_kind(
                        old(self).columns@[j].index,
                    ),
                forall|j: int|
                    0 <= j < k ==> match old(self).columns@[j].index {
                        ColumnIndex::UnclusteredSorted { .. } => (#[trigger] self.columns@[j]).index_wf(),
                        ColumnIndex::UnclusteredBTree { .. } => self.columns@[j].index_wf(),
                        _ => self.columns@[j].index == old(self).columns@[j].index,
                    },
                forall|j: int|
                    k <= j < n ==> (#[trigger] self.columns@[j]).index == old(self).columns@[j].index,
            decreases n - k,
        {
            let col = &mut self.columns[k];
            let which: u8 = match &col.index {
                ColumnIndex::UnclusteredSorted { .. } => 1,
                ColumnIndex::UnclusteredBTree { .. } => 2,
                _ => 0,
            };
            if which == 1 {
                col.set_index_unclustered_sorted();
            } else if which == 2 {
                col.set_index_unclustered_btree();
            }
            k = k + 1;
        }
    }

    /// Makes the given column the primary: unless sorting is skipped because
    /// the data already sits in clustered order, co-permutes every column by
    /// the primary's sort permutation and rebuilds the unclustered indexes.
    fn set_primary_column(&mut self, ith_column: usize, skip_sorting: bool)
        requires
            ith_column < old(self).columns@.len(),
            forall|k: int|
                0 <= k < old(self).columns@.len() ==> (#[trigger] old(self).columns@[k]).data@.len() == old(self).n_rows,
        ensures
            final(self).primary == Some(ith_column),
            final(self).columns@.len() == old(self).columns@.len(),
            final(self).n_rows == old(self).n_rows,
            final(self).n_cols == old(self).n_cols,
            forall|k: int|
                0 <= k < final(self).columns@.len() ==> (#[trigger] final(self).columns@[k]).name
                    == old(self).columns@[k].name && final(self).columns@[k].data@.len() == old(self).n_rows && index_kind(final(self).columns@[k].index) == index_kind(
                    old(self).columns@[k].index,
                ),
            skip_sorting ==> forall|k: int|
                0 <= k < final(self).columns@.len() ==> #[trigger] final(self).columns@[k] == old(self).columns@[k],
            !skip_sorting ==> exists|perm: Seq<usize>|
                #[trigger] is_sorter_for(perm, old(self).columns@[ith_column as int].data@)
                    && co_permuted(old(self).columns@, final(self).columns@, perm),
            !skip_sorting ==> sorted(final(self).columns@[ith_column as int].data@),
            !skip_sorting ==> forall|k: int|
                0 <= k < final(self).columns@.len() ==> match old(self).columns@[k].index {
                    ColumnIndex::UnclusteredSorted { .. } => (#[trigger] final(self).columns@[k]).index_wf(),
                    ColumnIndex::UnclusteredBTree { .. } => final(self).columns@[k].index_wf(),
                    _ => final(self).columns@[k].index == old(self).columns@[k].index,
                },
    {
        self.primary = Some(ith_column);
        if skip_sorting {
            return ;
        }
        let sorter = self.columns[ith_column].argsort();
        let ghost mid = *self;
        let n = self.columns.len();
        let mut k: usize = 0;
        while k < n
            invariant
                n == self.columns@.len(),
                k <= n,
                self.primary == Some(ith_column),
                self.n_rows == mid.n_rows,
                self.n_cols == mid.n_cols,
                self.columns@.len() == mid.columns@.len(),
                mid.columns@ == old(self).columns@,
                mid.n_rows == old(self).n_rows,
                is_sorter_for(sorter@, mid.columns@[ith_column as int].data@),
                sorter@.len() == mid.n_rows,
                forall|j: int|
                    0 <= j < n ==> (#[trigger] mid.columns@[j]).data@.len() == mid.n_rows,
                forall|j: int|
                    0 <= j < k ==> (#[trigger] self.columns@[j]).name == mid.columns@[j].name
                        && self.columns@[j].index == mid.columns@[j].index
                        && self.columns@[j].data@ == gather_values(mid.columns@[j].data@, sorter@),
                forall|j: int| k <= j < n ==> #[trigger] self.columns@[j] == mid.columns@[j],
            decreases n - k,
        {
            let new_data = gather_i32_exec(&self.columns[k].data, &sorter);
            let col = &mut self.columns[k];
            col.data = new_data;
            k = k + 1;
        }
        proof {
            assert(is_sorter_for(sorter@, old(self).columns@[ith_column as int].data@));
            assert(co_permuted(old(self).columns@, self.columns@, sorter@));
            let pv = permuted_view(mid.columns@[ith_column as int].data@, sorter@);
            assert(self.columns@[ith_column as int].data@ =~= pv);
        }
        self.recreate_unclustered_indexes();
        proof {
            assert(exists|perm: Seq<usize>|
                #[trigger] is_sorter_for(perm, old(self).columns@[ith_column as int].data@)
                    && co_permuted(old(self).columns@, final(self).columns@, perm)) by {
                assert(is_sorter_for(sorter@, old(self).columns@[ith_column as int].data@)
                    && co_permuted(old(self).columns@, final(self).columns@, sorter@));
            }
        }
    }

    /// Rebuilds every auxiliary index structure from the stored data: in
    /// skip-sorting mode the persisted data is already in clustered order,
    /// so the data itself is left untouched.
    pub fn recreate_indexes(&mut self, skip_sorting: bool)
        requires
            old(self).shape_wf(),
            skip_sorting ==> match old(self).primary {
                Some(p) => sorted(old(self).columns@[p as int].data@),
                None => true,
            },
        ensures
            final(self).wf(),
            final(self).primary == old(self).primary,
            final(self).n_rows == old(self).n_rows,
            final(self).n_cols == old(self).n_cols,
            final(self).columns@.len() == old(self).columns@.len(),
            forall|k: int|
                0 <= k < final(self).columns@.len() ==> (#[trigger] final(self).columns@[k]).name
                    == old(self).columns@[k].name && index_kind(final(self).columns@[k].index)
                    == index_kind(old(self).columns@[k].index),
            (skip_sorting || old(self).primary is None) ==> forall|k: int|
                0 <= k < final(self).columns@.len() ==> (#[trigger] final(self).columns@[k]).data
                    == old(self).columns@[k].data,
            (!skip_sorting && old(self).primary is Some) ==> exists|perm: Seq<usize>|
                #[trigger] is_sorter_for(
                    perm,
                    old(self).columns@[old(self).primary.unwrap() as int].data@,
                ) && co_permuted(old(self).columns@, final(self).columns@, perm),
    {
        let has_primary = match self.primary {
            Some(_) => true,
            None => false,
        };
        if has_primary {
            let p = match self.primary {
                Some(p) => p,
                None => 0,
            };
            let is_btree = matches!(self.columns[p].index, ColumnIndex::ClusteredBTree { .. });
            self.set_primary_column(p, skip_sorting);
            let colp = &mut self.columns[p];
            if is_btree {
                colp.set_index_clustered_btree();
            } else {
                colp.set_index_clustered_sorted();
            }
        }
        self.recreate_unclustered_indexes();
    }

    /// Installs an index on the given column. A clustered request when a
    /// different column is already the primary, or an unclustered request on
    /// the primary column itself, is rejected rather than silently breaking
    /// the clustering.
    pub fn create_index(&mut self, ith_column: usize, index_type: CreateCommandIndexType) -> (r:
        Result<(), DbError>)
        requires
            old(self).wf(),
            ith_column < old(self).columns@.len(),
        ensures
            final(self).wf(),
            final(self).n_rows == old(self).n_rows,
            final(self).n_cols == old(self).n_cols,
            final(self).columns@.len() == old(self).columns@.len(),
            forall|k: int|
                0 <= k < final(self).columns@.len() ==> (#[trigger] final(self).columns@[k]).name
                    == old(self).columns@[k].name,
            match r {
                Err(e) => create_index_conflict(*old(self), ith_column as int, index_type)
                    && *final(self) == *old(self) && (e matches DbError::Internal(m) && m@
                    == "table already has a clustered column"@),
                Ok(_) => !create_index_conflict(*old(self), ith_column as int, index_type)
                    && create_index_ok(*old(self), *final(self), ith_column as int, index_type),
            },
    {
        let clustered_request = matches!(
            index_type,
            CreateCommandIndexType::ClusteredSorted | CreateCommandIndexType::ClusteredBTree
        );
        let unclustered_request = matches!(
            index_type,
            CreateCommandIndexType::UnclusteredSorted | CreateCommandIndexType::UnclusteredBTree
        );
        let conflict = match self.primary {
            Some(p) => (clustered_request && p != ith_column) || (unclustered_request && p
                == ith_column),
            None => false,
        };
        if conflict {
            return Err(DbError::Internal("table already has a clustered column".to_owned()));
        }
        match index_type {
            CreateCommandIndexType::NoIndex => Ok(()),
            CreateCommandIndexType::UnclusteredSorted => {
                let col = &mut self.columns[ith_column];
                col.set_index_unclustered_sorted();
                Ok(())
            },
            CreateCommandIndexType::UnclusteredBTree => {
                let col = &mut self.columns[ith_column];
                col.set_index_unclustered_btree();
                Ok(())
            },
            CreateCommandIndexType::ClusteredSorted => {
                self.set_primary_column(ith_column, false);
                let col = &mut self.columns[ith_column];
                col.set_index_clustered_sorted();
                Ok(())
            },
            CreateCommandIndexType::ClusteredBTree => {
                self.set_primary_column(ith_column, false);
                let col = &mut self.columns[ith_column];
                col.set_index_clustered_btree();
                Ok(())
            },
        }
    }
}

/// The values the `k`-th column receives from a row-major value stream.
pub open spec fn column_slice(values: Seq<i32>, n_cols: int, k: int) -> Seq<i32> {
    Seq::new(((values.len() as int) / n_cols) as nat, |r: int| values[r * n_cols + k])
}

/// The error text of a row whose width does not match the table.
pub open spec fn arity_error_text(n_cols: int, n_values: int) -> Seq<char> {
    dec_int(n_cols) + " columns, but "@ + dec_int(n_values) + " values given"@
}


/// No index can be installed: a clustered request while a different column
/// is already the primary, or an unclustered request on the primary itself.
pub open spec fn create_index_conflict(t: Table, ith: int, index_type: CreateCommandIndexType)
    -> bool {
    let clustered_request = index_type is ClusteredSorted || index_type is ClusteredBTree;
    let unclustered_request = index_type is UnclusteredSorted || index_type is UnclusteredBTree;
    ||| (clustered_request && match t.primary {
        Some(p) => p != ith,
        None => false,
    })
    ||| (unclustered_request && match t.primary {
        Some(p) => p == ith,
        None => false,
    })
}

/// A successful index installation: the requested variant stands on the
/// named column, well-formed; a clustered request makes it the primary and
/// co-permutes every column by a sorting permutation of its data; an
/// unclustered request leaves all data and the other columns untouched.
pub open spec fn create_index_ok(
    t0: Table,
    t1: Table,
    ith: int,
    index_type: CreateCommandIndexType,
) -> bool {
    &&& t1.wf()
    &&& t1.n_rows == t0.n_rows
    &&& t1.n_cols == t0.n_cols
    &&& t1.columns@.len() == t0.columns@.len()
    &&& forall|k: int|
        0 <= k < t1.columns@.len() ==> (#[trigger] t1.columns@[k]).name == t0.columns@[k].name
    &&& match index_type {
        CreateCommandIndexType::NoIndex => t1 == t0,
        CreateCommandIndexType::UnclusteredSorted => t1.primary == t0.primary
            && t1.columns@[ith].index is UnclusteredSorted && forall|k: int|
            0 <= k < t1.columns@.len() ==> (#[trigger] t1.columns@[k]).data == t0.columns@[k].data
                && (k != ith ==> t1.columns@[k] == t0.columns@[k]),
        CreateCommandIndexType::UnclusteredBTree => t1.primary == t0.primary
            && t1.columns@[ith].index is UnclusteredBTree && forall|k: int|
            0 <= k < t1.columns@.len() ==> (#[trigger] t1.columns@[k]).data == t0.columns@[k].data
                && (k != ith ==> t1.columns@[k] == t0.columns@[k]),
        CreateCommandIndexType::ClusteredSorted => t1.primary == Some(ith as usize)
            && t1.columns@[ith].index is ClusteredSorted && exists|perm: Seq<usize>|
            #[trigger] is_sorter_for(perm, t0.columns@[ith].data@) && co_permuted(
                t0.columns@,
                t1.columns@,
                perm,
            ),
        CreateCommandIndexType::ClusteredBTree => t1.primary == Some(ith as usize)
            && t1.columns@[ith].index is ClusteredBTree && exists|perm: Seq<usize>|
            #[trigger] is_sorter_for(perm, t0.columns@[ith].data@) && co_permuted(
                t0.columns@,
                t1.columns@,
                perm,
            ),
    }
}

/// A successful row insert: the row count grows by one, every column keeps
/// its name and its index kind — so a maintained sorter or B-tree stays a
/// well-formed sorter or B-tree over the new data — and each column's data
/// is its old data with that column's own value inserted: at the slot that
/// keeps the primary sorted, or appended when there is no primary.
pub open spec fn insert_row_ok(t0: Table, t1: Table, values: Seq<i32>) -> bool {
    &&& t1.wf()
    &&& t1.n_rows == t0.n_rows + 1
    &&& t1.n_cols == t0.n_cols
    &&& t1.primary == t0.primary
    &&& t1.columns@.len() == t0.columns@.len()
    &&& forall|k: int|
        0 <= k < t1.columns@.len() ==> (#[trigger] t1.columns@[k]).name == t0.columns@[k].name
    &&& forall|k: int|
        0 <= k < t1.columns@.len() ==> index_kind((#[trigger] t1.columns@[k]).index) == index_kind(
            t0.columns@[k].index,
        )
    &&& match t0.primary {
        None => forall|k: int|
            0 <= k < t1.columns@.len() ==> (#[trigger] t1.columns@[k]).data@
                == t0.columns@[k].data@.push(values[k]),
        Some(p) => ({
            let align_left = t0.columns@[p as int].index is ClusteredSorted;
            let pos = spec_binsearch(t0.columns@[p as int].data@, values[p as int], align_left);
            forall|k: int|
                0 <= k < t1.columns@.len() ==> (#[trigger] t1.columns@[k]).data@
                    == t0.columns@[k].data@.insert(pos, values[k])
        }),
    }
}

/// A successful bulk load: the row-major values are appended column-wise
/// and every index is rebuilt; with a primary, all columns end co-permuted
/// by a sorting permutation of the appended primary data. Names and index
/// kinds are kept throughout.
pub open spec fn load_rows_ok(t0: Table, t1: Table, values: Seq<i32>) -> bool {
    &&& t1.wf()
    &&& t1.n_cols == t0.n_cols
    &&& t1.primary == t0.primary
    &&& t1.columns@.len() == t0.columns@.len()
    &&& t1.n_rows == t0.n_rows + (values.len() as int) / (t0.n_cols as int)
    &&& forall|k: int|
        0 <= k < t1.columns@.len() ==> (#[trigger] t1.columns@[k]).name == t0.columns@[k].name
    &&& forall|k: int|
        0 <= k < t1.columns@.len() ==> index_kind((#[trigger] t1.columns@[k]).index) == index_kind(
            t0.columns@[k].index,
        )
    &&& (t0.primary is None ==> forall|k: int|
        0 <= k < t1.columns@.len() ==> (#[trigger] t1.columns@[k]).data@ == t0.columns@[k].data@
            + column_slice(values, t0.n_cols as int, k))
    &&& (t0.primary matches Some(p) ==> exists|perm: Seq<usize>|
        #[trigger] is_sorter_for(
            perm,
            t0.columns@[p as int].data@ + column_slice(values, t0.n_cols as int, p as int),
        ) && forall|k: int|
            0 <= k < t1.columns@.len() ==> (#[trigger] t1.columns@[k]).data@ == gather_values(
                t0.columns@[k].data@ + column_slice(values, t0.n_cols as int, k),
                perm,
            ))
}

impl Table {
    /// Appends row-major values column-wise, then rebuilds every index.
    /// The values must form whole rows of a fully created table.
    pub fn load_rows(&mut self, values: &Vec<i32>) -> (r: Result<(), DbError>)
        requires
            old(self).wf(),
        ensures
            final(self).wf(),
            final(self).n_cols == old(self).n_cols,
            final(self).primary == old(self).primary,
            ({
                let ok_shape = old(self).n_cols > 0 && old(self).columns@.len() == old(self).n_cols
                    && (values@.len() as int) % (old(self).n_cols as int) == 0;
                match r {
                    Err(e) => !ok_shape && *final(self) == *old(self) && e is Internal,
                    Ok(_) => ok_shape && load_rows_ok(*old(self), *final(self), values@),
                }
            }),
    {
        let n_cols = self.n_cols;
        if n_cols == 0 || self.columns.len() != n_cols || values.len() % n_cols != 0 {
            return Err(
                DbError::Internal("loaded values do not form whole rows of the table".to_owned()),
            );
        }
        let total = values.len();
        let rows = total / n_cols;
        proof {
            vstd::arithmetic::div_mod::lemma_fundamental_div_mod(
                values@.len() as int,
                n_cols as int,
            );
        }
        let ghost mid = *self;
        let n = self.columns.len();
        let mut k: usize = 0;
        while k < n
            invariant
                n == self.columns@.len(),
                k <= n,
                n == n_cols == mid.n_cols,
                mid == *old(self),
                total == values@.len(),
                rows == (values@.len() as int) / (n_cols as int),
                values@.len() == rows * n_cols,
                self.primary == mid.primary,
                self.n_rows == mid.n_rows,
                self.n_cols == mid.n_cols,
                forall|j: int|
                    0 <= j < k ==> (#[trigger] self.columns@[j]).name == mid.columns@[j].name
                        && self.columns@[j].index == mid.columns@[j].index
                        && self.columns@[j].data@ == mid.columns@[j].data@ + column_slice(
                        values@,
                        n_cols as int,
                        j,
                    ),
                forall|j: int| k <= j < n ==> #[trigger] self.columns@[j] == mid.columns@[j],
            decreases n - k,
        {
            let ghost old_col = self.columns@[k as int];
            let ghost old_col_data = self.columns@[k as int].data@;
            let col = &mut self.columns[k];
            let mut r: usize = 0;
            proof {
                assert(old_col_data + column_slice(values@, n_cols as int, k as int).take(0)
                    =~= old_col_data);
            }
            while r < rows
                invariant
                    r <= rows,
                    k < n,
                    n_cols == n,
                    total == values@.len(),
                    rows == (values@.len() as int) / (n_cols as int),
                    values@.len() == rows * n_cols,
                    n_cols > 0,
                    col.name == old_col.name,
                    col.index == old_col.index,
                    col.data@ == old_col_data + column_slice(values@, n_cols as int, k as int).take(
                        r as int,
                    ),
                decreases rows - r,
            {
                proof {
                    assert(r * n_cols + k < rows * n_cols) by (nonlinear_arith)
                        requires
                            0 <= r < rows,
                            0 <= k < n_cols,
                    ;
                    assert(0 <= r * n_cols) by (nonlinear_arith)
                        requires
                            0 <= r,
                            0 <= n_cols,
                    ;
                }
                let idx = r * n_cols + k;
                col.data.push(values[idx]);
                proof {
                    let slice = column_slice(values@, n_cols as int, k as int);
                    assert(slice.take(r as int + 1) =~= slice.take(r as int).push(
                        values@[r * n_cols + k],
                    ));
                    assert(col.data@ =~= old_col_data + slice.take(r as int + 1));
                }
                r = r + 1;
            }
            proof {
                let slice = column_slice(values@, n_cols as int, k as int);
                assert(slice.take(rows as int) =~= slice);
            }
            k = k + 1;
        }
        proof {
            assert(self.columns@[0].data@.len() == mid.n_rows + rows);
        }
        let new_n_rows = self.columns[0].data.len();
        self.n_rows = new_n_rows;
        self.recreate_indexes(false);
        Ok(())
    }

    /// Inserts one row. With a primary column the row enters at the slot
    /// that keeps the primary sorted and every column shifts together; the
    /// primary's B-tree and all unclustered indexes are rebuilt. Without a
    /// primary each column appends its value and maintains its own index
    /// incrementally.
    pub fn insert_row(&mut self, values: &Vec<i32>) -> (r: Result<(), DbError>)
        requires
            old(self).wf(),
        ensures
            final(self).wf(),
            final(self).n_cols == old(self).n_cols,
            final(self).primary == old(self).primary,
            ({
                let arity_ok = values@.len() == old(self).n_cols;
                let complete = old(self).columns@.len() == old(self).n_cols && old(self).n_cols
                    > 0;
                match r {
                    Err(e) => *final(self) == *old(self) && !(arity_ok && complete) && (e
                        matches DbError::Internal(m) && (!arity_ok ==> m@ == arity_error_text(
                        old(self).n_cols as int,
                        values@.len() as int,
                    ))),
                    Ok(_) => arity_ok && complete && insert_row_ok(*old(self), *final(self), values@),
                }
            }),
    {
        let n_cols = self.n_cols;
        if values.len() != n_cols {
            let mut msg = crate::render::u64_to_string(n_cols as u64);
            let tail1 = " columns, but ";
            let tail2 = " values given";
            msg.append(tail1);
            let count = crate::render::u64_to_string(values.len() as u64);
            msg.append(count.as_str());
            msg.append(tail2);
            proof {
                reveal_strlit(" columns, but ");
                reveal_strlit(" values given");
                assert(msg@ =~= arity_error_text(n_cols as int, values@.len() as int));
            }
            return Err(DbError::Internal(msg));
        }
        if n_cols == 0 || self.columns.len() != n_cols {
            return Err(DbError::Internal("table columns are not fully created".to_owned()));
        }
        let has_primary = match self.primary {
            Some(_) => true,
            None => false,
        };
        if has_primary {
            let p = match self.primary {
                Some(p) => p,
                None => 0,
            };
            let align_left = matches!(self.columns[p].index, ColumnIndex::ClusteredSorted);
            let v_p = values[p];
            let pos = self.columns[p].binsearch(v_p, None, align_left);
            let ghost old_primary_data = self.columns@[p as int].data@;
            proof {
                lemma_insert_at_binsearch_sorted(old_primary_data, v_p, align_left);
            }
            let ghost mid = *self;
            let n = self.columns.len();
            let mut k: usize = 0;
            while k < n
                invariant
                    n == self.columns@.len(),
                    k <= n,
                    mid == *old(self),
                    values@.len() == n,
                    self.primary == mid.primary,
                    self.n_rows == mid.n_rows,
                    self.n_cols == mid.n_cols,
                    pos <= mid.n_rows,
                    forall|j: int|
                        0 <= j < n ==> (#[trigger] mid.columns@[j]).data@.len() == mid.n_rows,
                    forall|j: int|
                        0 <= j < k ==> (#[trigger] self.columns@[j]).name == mid.columns@[j].name
                            && self.columns@[j].index == mid.columns@[j].index
                            && self.columns@[j].data@ == mid.columns@[j].data@.insert(
                            pos as int,
                            values@[j],
                        ),
                    forall|j: int| k <= j < n ==> #[trigger] self.columns@[j] == mid.columns@[j],
                decreases n - k,
            {
                let v = values[k];
                let col = &mut self.columns[k];
                col.data.insert(pos, v);
                k = k + 1;
            }
            proof {
                assert(self.columns@[0].data@.len() == mid.n_rows + 1);
            }
            let new_n_rows = self.columns[0].data.len();
            self.n_rows = new_n_rows;
            let colp = &mut self.columns[p];
            proof {
                assert(colp.data@ == old_primary_data.insert(
                    spec_binsearch(old_primary_data, v_p, align_left),
                    v_p,
                ));
                assert(sorted(colp.data@));
            }
            if align_left {
                colp.set_index_clustered_sorted();
            } else {
                colp.set_index_clustered_btree();
            }
            self.recreate_unclustered_indexes();
            proof {
                assert(final(self).shape_wf());
                assert(final(self).indexes_wf());
            }
            Ok(())
        } else {
            let old_n_rows = self.n_rows;
            let ghost mid = *self;
            let n = self.columns.len();
            let mut k: usize = 0;
            while k < n
                invariant
                    n == self.columns@.len(),
                    k <= n,
                    mid == *old(self),
                    n == mid.columns@.len(),
                    values@.len() == n,
                    old_n_rows == mid.n_rows,
                    mid.primary is None,
                    self.primary == mid.primary,
                    self.n_rows == mid.n_rows,
                    self.n_cols == mid.n_cols,
                    mid.wf(),
                    forall|j: int|
                        0 <= j < k ==> (#[trigger] self.columns@[j]).name == mid.columns@[j].name
                            && self.columns@[j].data@ == mid.columns@[j].data@.push(values@[j])
                            && self.columns@[j].index_wf() && index_kind(self.columns@[j].index)
                            == index_kind(mid.columns@[j].index),
                    forall|j: int| k <= j < n ==> #[trigger] self.columns@[j] == mid.columns@[j],
                decreases n - k,
            {
                let v = values[k];
                let ghost old_col = self.columns@[k as int];
                proof {
                    assert(mid.columns@[k as int].index_wf());
                    assert(!mid.columns@[k as int].is_clustered());
                    assert(old_col.index_wf());
                }
                let col = &mut self.columns[k];
                let which: u8 = match &col.index {
                    ColumnIndex::UnclusteredSorted { .. } => 1,
                    ColumnIndex::UnclusteredBTree { .. } => 2,
                    _ => 0,
                };
                col.data.push(v);
                if which == 1 {
                    proof {
                        if let ColumnIndex::UnclusteredSorted { sorter } = old_col.index {
                            assert(is_sorter_for(sorter@, old_col.data@));
                            assert(permuted_view(col.data@, sorter@) =~= permuted_view(
                                old_col.data@,
                                sorter@,
                            ));
                        }
                    }
                    let pos = match &col.index {
                        ColumnIndex::UnclusteredSorted { sorter } => col.binsearch(
                            v,
                            Some(sorter),
                            false,
                        ),
                        _ => 0,
                    };
                    if let ColumnIndex::UnclusteredSorted { sorter } = &mut col.index {
                        proof {
                            if let ColumnIndex::UnclusteredSorted { sorter: s0 } = old_col.index {
                                assert(sorter@ == s0@);
                            }
                        }
                        sorter.insert(pos, old_n_rows);
                        proof {
                            if let ColumnIndex::UnclusteredSorted { sorter: s0 } = old_col.index {
                                let ov = permuted_view(old_col.data@, s0@);
                                let nv = permuted_view(col.data@, sorter@);
                                s0@.insert_ensures(pos as int, old_n_rows);
                                ov.insert_ensures(pos as int, v);
                                lemma_insert_at_binsearch_sorted(ov, v, false);
                                assert(nv =~= ov.insert(pos as int, v));
                                assert forall|i: int, j: int|
                                    0 <= i < j < sorter@.len() implies sorter@[i] != sorter@[j] by {
                                    if i != pos && j != pos {
                                        let i0 = if i < pos {
                                            i
                                        } else {
                                            i - 1
                                        };
                                        let j0 = if j < pos {
                                            j
                                        } else {
                                            j - 1
                                        };
                                        assert(sorter@[i] == s0@[i0] && sorter@[j] == s0@[j0]);
                                    }
                                }
                                assert(is_sorter_for(sorter@, col.data@));
                            }
                        }
                    }
                    proof {
                        assert(col.index_wf());
                    }
                } else if which == 2 {
                    let cur_len = col.data.len();
                    proof {
                        assert(cur_len == old_col.data@.len() + 1);
                        assert(old_col.data@.len() < usize::MAX);
                    }
                    if let ColumnIndex::UnclusteredBTree { btree } = &mut col.index {
                        proof {
                            if let ColumnIndex::UnclusteredBTree { btree: b0 } = old_col.index {
                                assert(btree_wf(btree.model(), old_col.data@));
                            }
                        }
                        btree.record(v, old_n_rows, Ghost(old_col.data@));
                    }
                    proof {
                        assert(col.index_wf());
                    }
                }
                k = k + 1;
            }
            proof {
                assert(self.columns@[0].data@.len() == mid.n_rows + 1);
            }
            let new_n_rows = self.columns[0].data.len();
            self.n_rows = new_n_rows;
            proof {
                assert(final(self).shape_wf());
                assert(final(self).indexes_wf());
            }
            Ok(())
        }
    }
}

} // verus!
