//! The relational insert command: appends one row to a table.

use crate::client_context::ClientContext;
use crate::db::Db;
use crate::errors::DbError;
use crate::message::ServerMessage;
use crate::parse::{parse_table_var, spec_table_var, ParserContext};
use crate::text::{parse_i32, spec_parse_i32};
use vstd::prelude::*;

verus! {

/// All arguments past the first parsed as 32-bit integers, if every one of
/// them parses.
pub open spec fn spec_parse_values(args: Seq<Seq<char>>) -> Option<Seq<i32>>
    decreases args.len(),
{
    if args.len() == 0 {
        Some(Seq::empty())
    } else {
        match (spec_parse_values(args.drop_last()), spec_parse_i32(args.last())) {
            (Some(pre), Some(v)) => Some(pre.push(v)),
            _ => None,
        }
    }
}

/// The full effect of a relational insert: the session bindings are
/// untouched; an unresolvable or missing table, a wrong row width or an
/// incomplete table is an execution error; on success the named table
/// holds the inserted row with every index maintained.
pub open spec fn spec_insert_post(
    cmd: InsertCommand,
    db0: Db,
    cc0: ClientContext,
    db1: Db,
    cc1: ClientContext,
    r: ServerMessage,
) -> bool {
    &&& cc1 == cc0
    &&& db1.name == db0.name
    &&& match spec_table_var(cmd.table_var@) {
        None => db1 == db0 && (r matches ServerMessage::ExecutionError(m) && m@
            == DbError::TableNotExist.spec_text()),
        Some((_, tn)) => if !db0.tables@.contains_key(tn) {
            db1.tables@ == db0.tables@ && (r matches ServerMessage::ExecutionError(m) && m@
                == DbError::TableNotExist.spec_text())
        } else {
            let t = db0.tables@[tn];
            let ok = cmd.values@.len() == t.n_cols && t.columns@.len() == t.n_cols && t.n_cols
                > 0;
            if ok {
                r is Okay && db1.tables@ == db0.tables@.insert(tn, db1.tables@[tn])
                    && crate::table::insert_row_ok(t, db1.tables@[tn], cmd.values@)
            } else {
                db1.tables@ == db0.tables@ && r is ExecutionError
            }
        },
    }
}

pub struct InsertCommand {
    pub table_var: String,
    pub values: Vec<i32>,
}

impl InsertCommand {
    /// The table variable, then one integer per column.
    pub fn parse(ctx: ParserContext) -> (r: (Option<InsertCommand>, ServerMessage))
        ensures
            ({
                let (cmd, msg) = r;
                if ctx.args@.len() == 0 {
                    msg is InvalidCommand && cmd is None
                } else {
                    match spec_parse_values(
                        ctx.args@.skip(1).map_values(|s: String| s@),
                    ) {
                        Some(vals) => msg is Okay && (cmd matches Some(c) && c.table_var
                            == ctx.args@[0] && c.values@ == vals),
                        None => msg is InvalidCommand && cmd is None,
                    }
                }
            }),
    {
        if ctx.args.len() == 0 {
            return (None, ServerMessage::InvalidCommand);
        }
        let ghost rest = ctx.args@.skip(1).map_values(|s: String| s@);
        let mut values: Vec<i32> = Vec::new();
        let mut i: usize = 1;
        proof {
            assert(rest.take(0) =~= Seq::<Seq<char>>::empty());
        }
        while i < ctx.args.len()
            invariant
                1 <= i <= ctx.args@.len(),
                rest == ctx.args@.skip(1).map_values(|s: String| s@),
                rest.len() == ctx.args@.len() - 1,
                spec_parse_values(rest.take(i - 1)) == Some(values@),
            decreases ctx.args@.len() - i,
        {
            match parse_i32(ctx.args[i].as_str()) {
                Some(v) => {
                    values.push(v);
                    proof {
                        let cur = rest.take(i as int);
                        assert(cur.drop_last() =~= rest.take(i - 1));
                        assert(cur.last() == rest[i - 1]);
                        assert(rest[i - 1] == ctx.args@[i as int]@);
                    }
                },
                None => {
                    proof {
                        lemma_parse_values_fail(rest, i - 1);
                        assert(rest[i - 1] == ctx.args@[i as int]@);
                    }
                    return (None, ServerMessage::InvalidCommand);
                },
            }
            i = i + 1;
        }
        proof {
            assert(rest.take(rest.len() as int) =~= rest);
        }
        let mut ctx = ctx;
        let tv = ctx.args.remove(0);
        (Some(InsertCommand { table_var: tv, values }), ServerMessage::Okay)
    }

    /// Appends the row to the named table; every index is maintained.
    pub fn execute(&self, db: &mut Db, cc: &mut ClientContext) -> (r: ServerMessage)
        requires
            old(db).wf(),
            old(cc).wf(),
        ensures
            final(db).wf(),
            final(cc).wf(),
            spec_insert_post(*self, *old(db), *old(cc), *final(db), *final(cc), r),
    {
        let (_, tn) = match parse_table_var(self.table_var.as_str()) {
            Ok(tup) => tup,
            Err(_) => {
                return ServerMessage::ExecutionError(DbError::TableNotExist.text());
            },
        };
        let mut t = match db.tables.remove(tn.as_str()) {
            Some(t) => t,
            None => {
                proof {
                    assert(db.tables@ =~= old(db).tables@);
                }
                return ServerMessage::ExecutionError(DbError::TableNotExist.text());
            },
        };
        let res = t.insert_row(&self.values);
        db.tables.insert(tn.as_str(), t);
        proof {
            if res is Err {
                assert(db.tables@ =~= old(db).tables@);
            } else {
                assert(db.tables@ =~= old(db).tables@.insert(tn@, db.tables@[tn@]));
            }
        }
        match res {
            Ok(_) => ServerMessage::Okay,
            Err(e) => ServerMessage::ExecutionError(e.text()),
        }
    }
}

/// A failing element makes the whole value list fail to parse.
proof fn lemma_parse_values_fail(args: Seq<Seq<char>>, i: int)
    requires
        0 <= i < args.len(),
        spec_parse_i32(args[i]) is None,
    ensures
        spec_parse_values(args) is None,
    decreases args.len(),
{
    if args.len() > 0 {
        if i == args.len() - 1 {
        } else {
            assert(args.drop_last()[i] == args[i]);
            lemma_parse_values_fail(args.drop_last(), i);
        }
    }
}

} // verus!
