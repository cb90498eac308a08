//! The fetch command: gathers the values of a vector at given positions.

use crate::client_context::{spec_lookup_values, ClientContext, Valvec};
use crate::db::Db;
use crate::errors::DbError;
use crate::message::ServerMessage;
use crate::model::gather_values;
use crate::parse::ParserContext;
use vstd::prelude::*;

verus! {

/// The full effect of a fetch: the database is read only, position
/// vectors and scalars are untouched; missing names and out-of-range
/// positions are execution errors; on success the output handle binds the
/// gathered values.
pub open spec fn spec_fetch_post(
    cmd: FetchCommand,
    db0: Db,
    cc0: ClientContext,
    db1: Db,
    cc1: ClientContext,
    r: ServerMessage,
) -> bool {
    &&& db1 == db0
    &&& cc1.posvecs == cc0.posvecs
    &&& cc1.numvals == cc0.numvals
    &&& match cmd.out {
        None => r is Okay && cc1 == cc0,
        Some(out) => match spec_lookup_values(&cc0, &db0, cmd.valvec_name@) {
            None => cc1 == cc0 && (r matches ServerMessage::ExecutionError(m) && m@
                == DbError::ValvecNotExist.spec_text()),
            Some(vals) => if !cc0.posvecs@.contains_key(cmd.posvec_name@) {
                cc1 == cc0 && (r matches ServerMessage::ExecutionError(m) && m@
                    == DbError::PosvecNotExist.spec_text())
            } else {
                let positions = cc0.posvecs@[cmd.posvec_name@].positions@;
                if forall|i: int|
                    0 <= i < positions.len() ==> (#[trigger] positions[i]) < vals.len() {
                    r is Okay && (cc1.valvecs@ == cc0.valvecs@.insert(out@, cc1.valvecs@[out@]))
                        && cc1.valvecs@[out@].values@ == gather_values(vals, positions)
                } else {
                    cc1 == cc0 && r is ExecutionError
                }
            },
        },
    }
}

pub struct FetchCommand {
    pub out: Option<String>,
    pub valvec_name: String,
    pub posvec_name: String,
}

impl FetchCommand {
    /// Two arguments: the value vector and the position vector.
    pub fn parse(ctx: ParserContext) -> (r: (Option<FetchCommand>, ServerMessage))
        ensures
            ({
                let (cmd, msg) = r;
                if ctx.args@.len() == 2 {
                    msg is Okay && (cmd matches Some(c) && c.out == ctx.handles_str
                        && c.valvec_name == ctx.args@[0] && c.posvec_name == ctx.args@[1])
                } else {
                    msg is InvalidCommand && cmd is None
                }
            }),
    {
        let mut ctx = ctx;
        if ctx.args.len() != 2 {
            return (None, ServerMessage::InvalidCommand);
        }
        let pname = ctx.args.remove(1);
        let vname = ctx.args.remove(0);
        (
            Some(FetchCommand { out: ctx.handles_str, valvec_name: vname, posvec_name: pname }),
            ServerMessage::Okay,
        )
    }

    /// Binds the output handle to `values[positions[i]]` for each position.
    /// A position past the end of the value vector is a caller contract
    /// violation and reports an execution error.
    pub fn execute(&self, db: &mut Db, cc: &mut ClientContext) -> (r: ServerMessage)
        requires
            old(db).wf(),
            old(cc).wf(),
        ensures
            final(cc).wf(),
            spec_fetch_post(*self, *old(db), *old(cc), *final(db), *final(cc), r),
    {
        let out = match &self.out {
            Some(out) => out,
            None => {
                return ServerMessage::Okay;
            },
        };
        let fetched: Vec<i32>;
        match cc.lookup_values_by_name(self.valvec_name.as_str(), db) {
            Some(values) => {
                match cc.posvecs.get(self.posvec_name.as_str()) {
                    Some(posvec) => {
                        let positions = &posvec.positions;
                        let n = values.len();
                        let mut ok = true;
                        let mut i: usize = 0;
                        while i < positions.len()
                            invariant
                                i <= positions@.len(),
                                n == values@.len(),
                                ok <==> forall|j: int|
                                    0 <= j < i ==> (#[trigger] positions@[j]) < n,
                            decreases positions@.len() - i,
                        {
                            if positions[i] >= n {
                                ok = false;
                                proof {
                                    assert(!(positions@[i as int] < n));
                                }
                            }
                            i = i + 1;
                        }
                        if !ok {
                            return ServerMessage::ExecutionError(
                                DbError::Internal(
                                    "position vector points past the end of the value vector".to_owned(),
                                ).text(),
                            );
                        }
                        fetched = crate::model::gather_i32_exec(values, positions);
                    },
                    None => {
                        return ServerMessage::ExecutionError(DbError::PosvecNotExist.text());
                    },
                }
            },
            None => {
                return ServerMessage::ExecutionError(DbError::ValvecNotExist.text());
            },
        }
        cc.valvecs.insert(out.as_str(), Valvec { values: fetched });
        ServerMessage::Okay
    }
}

} // verus!
