//! The print command: numeric scalars on one comma-separated line, or
//! value vectors as a comma-separated grid, one row per line.

use crate::client_context::{spec_lookup_values, ClientContext};
use crate::db::Db;
use crate::errors::DbError;
use crate::message::ServerMessage;
use crate::parse::ParserContext;
use crate::render::{dec_int, join_spec, join_strings};
use vstd::prelude::*;

verus! {

pub struct PrintCommand {
    pub items: Vec<String>,
}

/// Every named scalar exists.
pub open spec fn all_numvals(cc: &ClientContext, items: Seq<Seq<char>>) -> bool {
    forall|i: int| 0 <= i < items.len() ==> cc.numvals@.contains_key(#[trigger] items[i])
}

/// The one-line rendering of the named scalars.
pub open spec fn numvals_payload(cc: &ClientContext, items: Seq<Seq<char>>) -> Seq<char> {
    join_spec(Seq::new(items.len(), |i: int| cc.numvals@[items[i]].spec_repr()), ',')
}

/// Every name resolves to a value vector.
pub open spec fn all_valvecs(cc: &ClientContext, db: &Db, items: Seq<Seq<char>>) -> bool {
    forall|i: int| 0 <= i < items.len() ==> spec_lookup_values(cc, db, #[trigger] items[i]) is Some
}

/// The resolved columns, in item order.
pub open spec fn resolved_columns(cc: &ClientContext, db: &Db, items: Seq<Seq<char>>) -> Seq<
    Seq<i32>,
> {
    Seq::new(items.len(), |i: int| spec_lookup_values(cc, db, items[i]).unwrap())
}

/// One grid cell: the value at the row, or empty past the column's end.
pub open spec fn cell_repr(col: Seq<i32>, r: int) -> Seq<char> {
    if 0 <= r < col.len() {
        dec_int(col[r] as int)
    } else {
        Seq::empty()
    }
}

/// One grid row: the cells of every column, comma-separated.
pub open spec fn row_repr(cols: Seq<Seq<i32>>, r: int) -> Seq<char> {
    join_spec(Seq::new(cols.len(), |c: int| cell_repr(cols[c], r)), ',')
}

/// The whole grid: one line per row of the first column.
pub open spec fn grid_payload(cols: Seq<Seq<i32>>) -> Seq<char>
    recommends
        cols.len() > 0,
{
    join_spec(Seq::new(cols[0].len(), |r: int| row_repr(cols, r)), '\n')
}

/// All printed vectors are equally long.
pub open spec fn equal_column_lengths(cols: Seq<Seq<i32>>) -> bool {
    forall|j: int| 0 <= j < cols.len() ==> (#[trigger] cols[j]).len() == cols[0].len()
}

/// The full effect of a print: nothing changes; scalars print on one line
/// when the first name is a scalar, else the named vectors must all
/// resolve and be equally long and print as a grid; anything else is an
/// execution error.
pub open spec fn spec_print_post(
    cmd: PrintCommand,
    db0: Db,
    cc0: ClientContext,
    db1: Db,
    cc1: ClientContext,
    r: ServerMessage,
) -> bool {
    &&& db1 == db0
    &&& cc1 == cc0
    &&& ({
        let items = cmd.items@.map_values(|s: String| s@);
        if cc0.numvals@.contains_key(items[0]) {
            if all_numvals(&cc0, items) {
                r matches ServerMessage::OkWithPayload(p) && p@ == numvals_payload(&cc0, items)
            } else {
                r matches ServerMessage::ExecutionError(m) && m@
                    == DbError::NumvalNotExist.spec_text()
            }
        } else if !all_valvecs(&cc0, &db0, items) {
            r matches ServerMessage::ExecutionError(m) && m@
                == DbError::ValvecNotExist.spec_text()
        } else {
            let cols = resolved_columns(&cc0, &db0, items);
            if equal_column_lengths(cols) {
                r matches ServerMessage::OkWithPayload(p) && p@ == grid_payload(cols)
            } else {
                r matches ServerMessage::ExecutionError(m) && m@
                    == "Internal execution error: "@
                    + "printed value vectors have different lengths"@
            }
        }
    })
}

fn copy_values(v: &Vec<i32>) -> (r: Vec<i32>)
    ensures
        r@ == v@,
{
    let mut r: Vec<i32> = Vec::new();
    let mut i: usize = 0;
    while i < v.len()
        invariant
            i <= v@.len(),
            r@ == v@.take(i as int),
        decreases v@.len() - i,
    {
        r.push(v[i]);
        proof {
            assert(r@ =~= v@.take(i as int + 1));
        }
        i = i + 1;
    }
    proof {
        assert(v@.take(v@.len() as int) =~= v@);
    }
    r
}

impl PrintCommand {
    /// One or more names to print.
    pub fn parse(ctx: ParserContext) -> (r: (Option<PrintCommand>, ServerMessage))
        ensures
            ({
                let (cmd, msg) = r;
                if ctx.args@.len() == 0 {
                    msg is InvalidCommand && cmd is None
                } else {
                    msg is Okay && (cmd matches Some(c) && c.items == ctx.args)
                }
            }),
    {
        if ctx.args.len() == 0 {
            return (None, ServerMessage::InvalidCommand);
        }
        (Some(PrintCommand { items: ctx.args }), ServerMessage::Okay)
    }

    /// Renders the named scalars on one line when the first name is a
    /// scalar, else the named vectors — which must resolve and be equally
    /// long — as a comma-separated grid, one line per row.
    pub fn execute(&self, db: &mut Db, cc: &mut ClientContext) -> (r: ServerMessage)
        requires
            old(db).wf(),
            old(cc).wf(),
            self.items@.len() > 0,
        ensures
            spec_print_post(*self, *old(db), *old(cc), *final(db), *final(cc), r),
    {
        let ghost items = self.items@.map_values(|s: String| s@);
        let is_numvals = cc.numvals.contains(self.items[0].as_str());
        if is_numvals {
            let mut reprs: Vec<String> = Vec::new();
            let mut i: usize = 0;
            while i < self.items.len()
                invariant
                    i <= self.items@.len(),
                    items == self.items@.map_values(|s: String| s@),
                    *cc == *old(cc),
                    *db == *old(db),
                    cc.wf(),
                    cc.numvals@.contains_key(items[0]),
                    reprs@.len() == i,
                    forall|j: int| 0 <= j < i ==> cc.numvals@.contains_key(#[trigger] items[j]),
                    forall|j: int|
                        0 <= j < i ==> (#[trigger] reprs@[j])@ == cc.numvals@[items[j]].spec_repr(),
                decreases self.items@.len() - i,
            {
                match cc.numvals.get(self.items[i].as_str()) {
                    Some(nv) => {
                        reprs.push(nv.render());
                    },
                    None => {
                        proof {
                            assert(!cc.numvals@.contains_key(items[i as int]));
                        }
                        return ServerMessage::ExecutionError(DbError::NumvalNotExist.text());
                    },
                }
                i = i + 1;
            }
            let payload = join_strings(&reprs, ',');
            proof {
                assert(reprs@.map_values(|x: String| x@) =~= Seq::new(
                    items.len(),
                    |i: int| cc.numvals@[items[i]].spec_repr(),
                ));
            }
            ServerMessage::OkWithPayload(payload)
        } else {
            let ghost cols_spec = resolved_columns(cc, db, items);
            let mut cols: Vec<Vec<i32>> = Vec::new();
            let mut i: usize = 0;
            while i < self.items.len()
                invariant
                    i <= self.items@.len(),
                    items == self.items@.map_values(|s: String| s@),
                    *cc == *old(cc),
                    *db == *old(db),
                    cc.wf(),
                    db.wf(),
                    !cc.numvals@.contains_key(items[0]),
                    cols_spec == resolved_columns(cc, db, items),
                    cols@.len() == i,
                    forall|j: int|
                        0 <= j < i ==> spec_lookup_values(cc, db, #[trigger] items[j]) is Some,
                    forall|j: int| 0 <= j < i ==> (#[trigger] cols@[j])@ == cols_spec[j],
                decreases self.items@.len() - i,
            {
                match cc.lookup_values_by_name(self.items[i].as_str(), db) {
                    Some(values) => {
                        proof {
                            assert(items[i as int] == self.items@[i as int]@);
                            assert(spec_lookup_values(cc, db, items[i as int]) == Some(values@));
                        }
                        let copied = copy_values(values);
                        cols.push(copied);
                        proof {
                            assert(cols@[i as int]@ == cols_spec[i as int]);
                        }
                    },
                    None => {
                        proof {
                            assert(spec_lookup_values(cc, db, items[i as int]) is None);
                        }
                        return ServerMessage::ExecutionError(DbError::ValvecNotExist.text());
                    },
                }
                i = i + 1;
            }
            proof {
                assert(all_valvecs(cc, db, items));
                assert(all_valvecs(old(cc), old(db), items));
            }
            let count = cols.len();
            let first_len = cols[0].len();
            let mut j: usize = 1;
            while j < count
                invariant
                    1 <= j <= count,
                    items == self.items@.map_values(|s: String| s@),
                    items.len() > 0,
                    *cc == *old(cc),
                    *db == *old(db),
                    cc.wf(),
                    db.wf(),
                    !cc.numvals@.contains_key(items[0]),
                    forall|q: int|
                        0 <= q < items.len() ==> spec_lookup_values(
                            cc,
                            db,
                            #[trigger] items[q],
                        ) is Some,
                    cols_spec == resolved_columns(cc, db, items),
                    count == cols@.len() == cols_spec.len(),
                    first_len == cols_spec[0].len(),
                    forall|q: int| 0 <= q < count ==> (#[trigger] cols@[q])@ == cols_spec[q],
                    forall|q: int|
                        0 <= q < j ==> (#[trigger] cols_spec[q]).len() == cols_spec[0].len(),
                decreases count - j,
            {
                if cols[j].len() != first_len {
                    proof {
                        assert(cols_spec[j as int].len() != cols_spec[0].len());
                        assert(!equal_column_lengths(cols_spec));
                    }
                    return ServerMessage::ExecutionError(
                        DbError::Internal(
                            "printed value vectors have different lengths".to_owned(),
                        ).text(),
                    );
                }
                j = j + 1;
            }
            proof {
                assert(equal_column_lengths(cols_spec));
            }
            let n_rows = cols[0].len();
            let n_cols = cols.len();
            let mut row_strings: Vec<String> = Vec::new();
            let mut r_i: usize = 0;
            while r_i < n_rows
                invariant
                    r_i <= n_rows,
                    n_cols == cols@.len() == cols_spec.len(),
                    n_cols > 0,
                    n_rows == cols_spec[0].len(),
                    forall|j: int| 0 <= j < n_cols ==> (#[trigger] cols@[j])@ == cols_spec[j],
                    row_strings@.len() == r_i,
                    forall|q: int|
                        0 <= q < r_i ==> (#[trigger] row_strings@[q])@ == row_repr(cols_spec, q),
                decreases n_rows - r_i,
            {
                let mut cells: Vec<String> = Vec::new();
                let mut c_i: usize = 0;
                while c_i < n_cols
                    invariant
                        c_i <= n_cols,
                        n_cols == cols@.len() == cols_spec.len(),
                        forall|j: int| 0 <= j < n_cols ==> (#[trigger] cols@[j])@ == cols_spec[j],
                        cells@.len() == c_i,
                        forall|q: int|
                            0 <= q < c_i ==> (#[trigger] cells@[q])@ == cell_repr(
                                cols_spec[q],
                                r_i as int,
                            ),
                    decreases n_cols - c_i,
                {
                    let col = &cols[c_i];
                    let cell = if r_i < col.len() {
                        crate::render::i32_to_string(col[r_i])
                    } else {
                        String::new()
                    };
                    cells.push(cell);
                    c_i = c_i + 1;
                }
                let row = join_strings(&cells, ',');
                proof {
                    assert(cells@.map_values(|x: String| x@) =~= Seq::new(
                        cols_spec.len(),
                        |c: int| cell_repr(cols_spec[c], r_i as int),
                    ));
                }
                row_strings.push(row);
                r_i = r_i + 1;
            }
            let payload = join_strings(&row_strings, '\n');
            proof {
                assert(row_strings@.map_values(|x: String| x@) =~= Seq::new(
                    cols_spec[0].len(),
                    |q: int| row_repr(cols_spec, q),
                ));
            }
            ServerMessage::OkWithPayload(payload)
        }
    }
}

} // verus!
