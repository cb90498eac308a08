//! The select command: the positions whose values lie in a half-open
//! range, by linear scan or through whichever index the column carries.

use crate::client_context::{ClientContext, Posvec};
use crate::column::{btree_range_concat, spec_binsearch, Column, ColumnIndex};
use crate::db::Db;
use crate::errors::DbError;
use crate::message::ServerMessage;
use crate::model::{
    gather_positions, gather_usize_exec, in_range, permuted_view, range_positions, scan_positions,
};
use crate::parse::{spec_column_var, ParserContext};
use crate::text::{parse_i32, spec_parse_i32};
use vstd::prelude::*;

verus! {

pub struct SelectCommand {
    pub out: Option<String>,
    pub lower_bound: i32,
    pub upper_bound: i32,
    pub valvec_name: String,
    pub posvec_name: Option<String>,
}

/// The subrange when the bounds are ordered and in range, else nothing.
pub open spec fn bounded_subrange(s: Seq<usize>, a: int, b: int) -> Seq<usize> {
    if 0 <= a <= b <= s.len() {
        s.subrange(a, b)
    } else {
        Seq::empty()
    }
}

/// The positions a select on an indexed column produces, before any gather
/// through a caller position vector: the sorter window for an unclustered
/// sorted index, the natural position range for a clustered one, and the
/// key-ordered concatenation for a B-tree.
pub open spec fn selected_positions(col: Column, lo: i32, hi: i32) -> Seq<usize> {
    match col.index {
        ColumnIndex::NoIndex => scan_positions(col.data@, lo, hi),
        ColumnIndex::UnclusteredSorted { sorter } => {
            let view = permuted_view(col.data@, sorter@);
            bounded_subrange(
                sorter@,
                spec_binsearch(view, lo, true),
                spec_binsearch(view, hi, true),
            )
        },
        ColumnIndex::ClusteredSorted => {
            let a = spec_binsearch(col.data@, lo, true);
            let b = spec_binsearch(col.data@, hi, true);
            if a <= b {
                range_positions(a, b - a)
            } else {
                Seq::empty()
            }
        },
        ColumnIndex::UnclusteredBTree { btree } => btree_range_concat(btree.model(), lo, hi),
        ColumnIndex::ClusteredBTree { btree } => btree_range_concat(btree.model(), lo, hi),
    }
}

/// The selected positions, gathered through the caller's position vector
/// when one was given.
pub open spec fn gather_opt(pos: Option<Seq<usize>>, selected: Seq<usize>) -> Seq<usize> {
    match pos {
        None => selected,
        Some(p) => gather_positions(p, selected),
    }
}

/// A linear scan: the positions with values in `[lo, hi)`, in position
/// order, optionally mapped through the caller's position vector.
pub fn scan_select(values: &Vec<i32>, positions: Option<&Vec<usize>>, lo: i32, hi: i32) -> (r: Vec<
    usize,
>)
    requires
        match positions {
            Some(p) => p@.len() == values@.len(),
            None => true,
        },
    ensures
        r@ == gather_opt(
            match positions {
                Some(p) => Some(p@),
                None => None,
            },
            scan_positions(values@, lo, hi),
        ),
{
    let mut out: Vec<usize> = Vec::new();
    let n = values.len();
    proof {
        assert(values@.len() == n);
        crate::model::lemma_scan_positions_props(values@, lo, hi);
        assert(values@.take(0) =~= Seq::<i32>::empty());
    }
    let mut i: usize = 0;
    while i < values.len()
        invariant
            i <= values@.len(),
            match positions {
                Some(p) => p@.len() == values@.len() && out@ == gather_positions(
                    p@,
                    scan_positions(values@.take(i as int), lo, hi),
                ),
                None => out@ == scan_positions(values@.take(i as int), lo, hi),
            },
        decreases values@.len() - i,
    {
        let v = values[i];
        proof {
            let cur = values@.take(i as int + 1);
            assert(cur.drop_last() =~= values@.take(i as int));
            assert(cur.last() == values@[i as int]);
        }
        if v >= lo && v < hi {
            match positions {
                Some(p) => {
                    out.push(p[i]);
                    proof {
                        let pre = scan_positions(values@.take(i as int), lo, hi);
                        let cur = scan_positions(values@.take(i as int + 1), lo, hi);
                        assert(cur =~= pre.push(i as usize));
                        assert(out@ =~= gather_positions(p@, cur));
                    }
                },
                None => {
                    out.push(i);
                    proof {
                        let pre = scan_positions(values@.take(i as int), lo, hi);
                        let cur = scan_positions(values@.take(i as int + 1), lo, hi);
                        assert(cur =~= pre.push(i as usize));
                    }
                },
            }
        } else {
            proof {
                let pre = scan_positions(values@.take(i as int), lo, hi);
                let cur = scan_positions(values@.take(i as int + 1), lo, hi);
                assert(cur =~= pre);
                if positions is Some {
                    assert(gather_positions(positions.unwrap()@, cur) =~= gather_positions(
                        positions.unwrap()@,
                        pre,
                    ));
                }
            }
        }
        i = i + 1;
    }
    proof {
        assert(values@.take(values@.len() as int) =~= values@);
    }
    out
}

/// Selection through the column's index.
pub fn select_with_index(column: &Column, positions: Option<&Vec<usize>>, lo: i32, hi: i32) -> (r:
    Vec<usize>)
    requires
        column.index_wf(),
        !(column.index is NoIndex),
        match positions {
            Some(p) => p@.len() == column.data@.len(),
            None => true,
        },
    ensures
        r@ == gather_opt(
            match positions {
                Some(p) => Some(p@),
                None => None,
            },
            selected_positions(*column, lo, hi),
        ),
{
    let ghost want = selected_positions(*column, lo, hi);
    match &column.index {
        ColumnIndex::NoIndex => {
            proof {
                assert(false);
            }
            Vec::new()
        },
        ColumnIndex::UnclusteredSorted { sorter } => {
            let lower = column.binsearch(lo, Some(sorter), true);
            let upper = column.binsearch(hi, Some(sorter), true);
            if lower > upper {
                let r: Vec<usize> = Vec::new();
                proof {
                    assert(r@ =~= want);
                    if positions is Some {
                        assert(gather_positions(positions.unwrap()@, want) =~= want);
                    }
                }
                r
            } else {
                let mut out: Vec<usize> = Vec::new();
                let mut ind: usize = lower;
                while ind < upper
                    invariant
                        lower <= ind <= upper,
                        upper <= sorter@.len(),
                        column.index_wf(),
                        column.index == (ColumnIndex::UnclusteredSorted { sorter: *sorter }),
                        match positions {
                            Some(p) => p@.len() == column.data@.len() && out@ == gather_positions(
                                p@,
                                sorter@.subrange(lower as int, ind as int),
                            ),
                            None => out@ == sorter@.subrange(lower as int, ind as int),
                        },
                    decreases upper - ind,
                {
                    let s_ind = sorter[ind];
                    match positions {
                        Some(p) => {
                            out.push(p[s_ind]);
                            proof {
                                assert(sorter@.subrange(lower as int, ind as int + 1)
                                    =~= sorter@.subrange(lower as int, ind as int).push(
                                    sorter@[ind as int],
                                ));
                                assert(out@ =~= gather_positions(
                                    p@,
                                    sorter@.subrange(lower as int, ind as int + 1),
                                ));
                            }
                        },
                        None => {
                            out.push(s_ind);
                            proof {
                                assert(sorter@.subrange(lower as int, ind as int + 1)
                                    =~= sorter@.subrange(lower as int, ind as int).push(
                                    sorter@[ind as int],
                                ));
                            }
                        },
                    }
                    ind = ind + 1;
                }
                proof {
                    assert(want == sorter@.subrange(lower as int, upper as int));
                }
                out
            }
        },
        ColumnIndex::ClusteredSorted => {
            let lower = column.binsearch(lo, None, true);
            let upper = column.binsearch(hi, None, true);
            if lower > upper {
                let r: Vec<usize> = Vec::new();
                proof {
                    assert(r@ =~= want);
                    if positions is Some {
                        assert(gather_positions(positions.unwrap()@, want) =~= want);
                    }
                }
                r
            } else {
                let mut out: Vec<usize> = Vec::new();
                let mut ind: usize = lower;
                while ind < upper
                    invariant
                        lower <= ind <= upper,
                        upper <= column.data@.len(),
                        match positions {
                            Some(p) => p@.len() == column.data@.len() && out@ == gather_positions(
                                p@,
                                range_positions(lower as int, ind - lower),
                            ),
                            None => out@ == range_positions(lower as int, ind - lower),
                        },
                    decreases upper - ind,
                {
                    match positions {
                        Some(p) => {
                            out.push(p[ind]);
                            proof {
                                assert(range_positions(lower as int, ind + 1 - lower)
                                    =~= range_positions(lower as int, ind - lower).push(ind));
                                assert(out@ =~= gather_positions(
                                    p@,
                                    range_positions(lower as int, ind + 1 - lower),
                                ));
                            }
                        },
                        None => {
                            out.push(ind);
                            proof {
                                assert(range_positions(lower as int, ind + 1 - lower)
                                    =~= range_positions(lower as int, ind - lower).push(ind));
                            }
                        },
                    }
                    ind = ind + 1;
                }
                proof {
                    assert(want == range_positions(lower as int, upper - lower));
                    if ind == lower {
                        assert(out@ =~= range_positions(lower as int, 0));
                    }
                }
                out
            }
        },
        ColumnIndex::UnclusteredBTree { btree } => {
            let concat = btree.range_concat(lo, hi);
            let n = column.data.len();
            proof {
                assert(column.data@.len() == n);
                crate::column::lemma_btree_range_concat_bounds(
                    btree.model(),
                    column.data@,
                    lo,
                    hi,
                );
            }
            match positions {
                Some(p) => gather_usize_exec(p, &concat),
                None => concat,
            }
        },
        ColumnIndex::ClusteredBTree { btree } => {
            let concat = btree.range_concat(lo, hi);
            let n = column.data.len();
            proof {
                assert(column.data@.len() == n);
                crate::column::lemma_btree_range_concat_bounds(
                    btree.model(),
                    column.data@,
                    lo,
                    hi,
                );
            }
            match positions {
                Some(p) => gather_usize_exec(p, &concat),
                None => concat,
            }
        },
    }
}

/// The full effect of a select: the database is read only, value vectors
/// and scalars are untouched, missing names and length mismatches are
/// execution errors, and on success the output handle binds the selected
/// positions.
pub open spec fn spec_select_post(
    cmd: SelectCommand,
    db0: Db,
    cc0: ClientContext,
    db1: Db,
    cc1: ClientContext,
    r: ServerMessage,
) -> bool {
    &&& db1 == db0
    &&& cc1.valvecs == cc0.valvecs
    &&& cc1.numvals == cc0.numvals
    &&& match cmd.out {
        None => r is Okay && cc1 == cc0,
        Some(out) => ({
            let pos_missing = cmd.posvec_name matches Some(pn) && !cc0.posvecs@.contains_key(pn@);
            let pos_opt = match cmd.posvec_name {
                Some(pn) => Some(cc0.posvecs@[pn@].positions@),
                None => None,
            };
            if pos_missing {
                cc1 == cc0 && (r matches ServerMessage::ExecutionError(m) && m@
                    == DbError::PosvecNotExist.spec_text())
            } else if cc0.valvecs@.contains_key(cmd.valvec_name@) {
                let vals = cc0.valvecs@[cmd.valvec_name@].values@;
                if pos_opt matches Some(p) && p.len() != vals.len() {
                    cc1 == cc0 && r is ExecutionError
                } else {
                    r is Okay && (cc1.posvecs@ == cc0.posvecs@.insert(
                        out@,
                        cc1.posvecs@[out@],
                    )) && cc1.posvecs@[out@].positions@ == gather_opt(
                        pos_opt,
                        scan_positions(vals, cmd.lower_bound, cmd.upper_bound),
                    )
                }
            } else {
                match spec_column_var(cmd.valvec_name@) {
                    None => cc1 == cc0 && (r matches ServerMessage::ExecutionError(m) && m@
                        == DbError::ValvecNotExist.spec_text()),
                    Some((_, tn, cn)) => if !db0.tables@.contains_key(tn) {
                        cc1 == cc0 && (r matches ServerMessage::ExecutionError(m) && m@
                            == DbError::ValvecNotExist.spec_text())
                    } else if !(exists|i: int|
                        0 <= i < db0.tables@[tn].columns@.len() && (
                        #[trigger] db0.tables@[tn].columns@[i]).name@ == cn) {
                        cc1 == cc0 && (r matches ServerMessage::ExecutionError(m) && m@
                            == DbError::ValvecNotExist.spec_text())
                    } else {
                        let col = db0.tables@[tn].columns@[choose|i: int|
                            0 <= i < db0.tables@[tn].columns@.len() && (
                            #[trigger] db0.tables@[tn].columns@[i]).name@ == cn];
                        if pos_opt matches Some(p) && p.len() != col.data@.len() {
                            cc1 == cc0 && r is ExecutionError
                        } else {
                            r is Okay && (cc1.posvecs@ == cc0.posvecs@.insert(
                                out@,
                                cc1.posvecs@[out@],
                            )) && cc1.posvecs@[out@].positions@ == gather_opt(
                                pos_opt,
                                if col.index is NoIndex {
                                    scan_positions(col.data@, cmd.lower_bound, cmd.upper_bound)
                                } else {
                                    selected_positions(col, cmd.lower_bound, cmd.upper_bound)
                                },
                            )
                        }
                    },
                }
            }
        }),
    }
}

impl SelectCommand {
    /// Three arguments select over a vector with `null` accepted as an open
    /// bound; four arguments prepend a position vector and demand numeric
    /// bounds.
    pub fn parse(ctx: ParserContext) -> (r: (Option<SelectCommand>, ServerMessage))
        ensures
            ({
                let (cmd, msg) = r;
                let args = ctx.args@.map_values(|s: String| s@);
                if args.len() == 3 {
                    let lo = if spec_parse_i32(args[1]) is Some {
                        spec_parse_i32(args[1])
                    } else if args[1] == "null"@ {
                        Some(i32::MIN)
                    } else {
                        None
                    };
                    let hi = if spec_parse_i32(args[2]) is Some {
                        spec_parse_i32(args[2])
                    } else if args[2] == "null"@ {
                        Some(i32::MAX)
                    } else {
                        None
                    };
                    match (lo, hi) {
                        (Some(l), Some(h)) => msg is Okay && (cmd matches Some(c) && c.out
                            == ctx.handles_str && c.posvec_name is None && c.valvec_name
                            == ctx.args@[0] && c.lower_bound == l && c.upper_bound == h),
                        _ => msg is InvalidCommand && cmd is None,
                    }
                } else if args.len() == 4 {
                    match (spec_parse_i32(args[2]), spec_parse_i32(args[3])) {
                        (Some(l), Some(h)) => msg is Okay && (cmd matches Some(c) && c.out
                            == ctx.handles_str && (c.posvec_name matches Some(pn) && pn
                            == ctx.args@[0]) && c.valvec_name == ctx.args@[1] && c.lower_bound
                            == l && c.upper_bound == h),
                        _ => msg is InvalidCommand && cmd is None,
                    }
                } else {
                    msg is InvalidCommand && cmd is None
                }
            }),
    {
        proof {
            reveal_strlit("null");
        }
        if ctx.args.len() == 3 {
            let lower_bound = match parse_i32(ctx.args[1].as_str()) {
                Some(v) => v,
                None => {
                    if crate::text::str_eq(ctx.args[1].as_str(), "null") {
                        i32::MIN
                    } else {
                        return (None, ServerMessage::InvalidCommand);
                    }
                },
            };
            let upper_bound = match parse_i32(ctx.args[2].as_str()) {
                Some(v) => v,
                None => {
                    if crate::text::str_eq(ctx.args[2].as_str(), "null") {
                        i32::MAX
                    } else {
                        return (None, ServerMessage::InvalidCommand);
                    }
                },
            };
            let mut ctx = ctx;
            let vname = ctx.args.remove(0);
            (
                Some(
                    SelectCommand {
                        out: ctx.handles_str,
                        posvec_name: None,
                        valvec_name: vname,
                        lower_bound,
                        upper_bound,
                    },
                ),
                ServerMessage::Okay,
            )
        } else if ctx.args.len() == 4 {
            let lower_bound = match parse_i32(ctx.args[2].as_str()) {
                Some(v) => v,
                None => {
                    return (None, ServerMessage::InvalidCommand);
                },
            };
            let upper_bound = match parse_i32(ctx.args[3].as_str()) {
                Some(v) => v,
                None => {
                    return (None, ServerMessage::InvalidCommand);
                },
            };
            let mut ctx = ctx;
            let vname = ctx.args.remove(1);
            let pname = ctx.args.remove(0);
            (
                Some(
                    SelectCommand {
                        out: ctx.handles_str,
                        posvec_name: Some(pname),
                        valvec_name: vname,
                        lower_bound,
                        upper_bound,
                    },
                ),
                ServerMessage::Okay,
            )
        } else {
            (None, ServerMessage::InvalidCommand)
        }
    }

    /// Binds the output handle to the selected positions. A session value
    /// vector, or a column without an index, is scanned linearly; an
    /// indexed column is searched through its index. With a caller position
    /// vector, its length must match the scanned vector's.
    pub fn execute(&self, db: &mut Db, cc: &mut ClientContext) -> (r: ServerMessage)
        requires
            old(db).wf(),
            old(cc).wf(),
        ensures
            final(cc).wf(),
            spec_select_post(*self, *old(db), *old(cc), *final(db), *final(cc), r),
    {
        let out = match &self.out {
            Some(out) => out,
            None => {
                return ServerMessage::Okay;
            },
        };
        let selected: Vec<usize>;
        {
            let positions: Option<&Vec<usize>> = match &self.posvec_name {
                Some(pn) => match cc.posvecs.get(pn.as_str()) {
                    Some(posvec) => Some(&posvec.positions),
                    None => {
                        return ServerMessage::ExecutionError(DbError::PosvecNotExist.text());
                    },
                },
                None => None,
            };
            match cc.valvecs.get(self.valvec_name.as_str()) {
                Some(valvec) => {
                    if let Some(p) = positions {
                        if p.len() != valvec.values.len() {
                            return ServerMessage::ExecutionError(
                                DbError::Internal(
                                    "position vector length does not match the value vector".to_owned(),
                                ).text(),
                            );
                        }
                    }
                    selected = scan_select(
                        &valvec.values,
                        positions,
                        self.lower_bound,
                        self.upper_bound,
                    );
                },
                None => {
                    let (_dbn, tn, cn) = match crate::parse::parse_column_var(
                        self.valvec_name.as_str(),
                    ) {
                        Ok(tup) => tup,
                        Err(_) => {
                            return ServerMessage::ExecutionError(DbError::ValvecNotExist.text());
                        },
                    };
                    let table = match db.tables.get(tn.as_str()) {
                        Some(table) => table,
                        None => {
                            return ServerMessage::ExecutionError(DbError::ValvecNotExist.text());
                        },
                    };
                    let mut found: Option<usize> = None;
                    let mut i: usize = 0;
                    while i < table.columns.len()
                        invariant
                            i <= table.columns@.len(),
                            db.wf(),
                            db.tables@.contains_key(tn@),
                            *table == db.tables@[tn@],
                            match found {
                                Some(f) => f < i && table.columns@[f as int].name@ == cn@,
                                None => forall|j: int|
                                    0 <= j < i ==> (#[trigger] table.columns@[j]).name@ != cn@,
                            },
                        decreases table.columns@.len() - i,
                    {
                        if found.is_none() && crate::text::str_eq(
                            table.columns[i].name.as_str(),
                            cn.as_str(),
                        ) {
                            found = Some(i);
                        }
                        i = i + 1;
                    }
                    let f = match found {
                        Some(f) => f,
                        None => {
                            proof {
                                let t = db.tables@[tn@];
                                if exists|w: int|
                                    0 <= w < t.columns@.len() && (#[trigger] t.columns@[w]).name@
                                        == cn@ {
                                    let w = choose|w: int|
                                        0 <= w < t.columns@.len() && (
                                        #[trigger] t.columns@[w]).name@ == cn@;
                                    assert(false);
                                }
                            }
                            return ServerMessage::ExecutionError(DbError::ValvecNotExist.text());
                        },
                    };
                    let column = &table.columns[f];
                    proof {
                        let t = db.tables@[tn@];
                        assert(t.wf());
                        let w = choose|i: int|
                            0 <= i < t.columns@.len() && (#[trigger] t.columns@[i]).name@ == cn@;
                        assert(w == f as int);
                        assert(t.columns@[f as int].index_wf());
                    }
                    if let Some(p) = positions {
                        if p.len() != column.data.len() {
                            return ServerMessage::ExecutionError(
                                DbError::Internal(
                                    "position vector length does not match the value vector".to_owned(),
                                ).text(),
                            );
                        }
                    }
                    let no_index = matches!(column.index, ColumnIndex::NoIndex);
                    if no_index {
                        selected = scan_select(
                            &column.data,
                            positions,
                            self.lower_bound,
                            self.upper_bound,
                        );
                    } else {
                        selected = select_with_index(
                            column,
                            positions,
                            self.lower_bound,
                            self.upper_bound,
                        );
                    }
                },
            }
        }
        cc.posvecs.insert(out.as_str(), Posvec { positions: selected });
        ServerMessage::Okay
    }
}

} // verus!
