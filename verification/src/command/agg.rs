//! The aggregation commands: min, max, sum and avg over a value vector.

use crate::client_context::{ClientContext, Numval};
use crate::db::Db;
use crate::errors::DbError;
use crate::message::ServerMessage;
use crate::model::{lemma_wrap_unique, wrap_to_i64};
use crate::parse::ParserContext;
use vstd::prelude::*;

verus! {

pub enum AggCommandType {
    Min,
    Max,
    Sum,
    Avg,
}

impl AggCommandType {
    pub fn from_flag(flag: u8) -> (r: AggCommandType)
        requires
            flag <= 3,
        ensures
            r.to_flag_spec() == flag,
    {
        if flag == 0 {
            AggCommandType::Min
        } else if flag == 1 {
            AggCommandType::Max
        } else if flag == 2 {
            AggCommandType::Sum
        } else {
            AggCommandType::Avg
        }
    }

    pub open spec fn to_flag_spec(&self) -> u8 {
        match self {
            AggCommandType::Min => 0,
            AggCommandType::Max => 1,
            AggCommandType::Sum => 2,
            AggCommandType::Avg => 3,
        }
    }

    pub fn to_flag(&self) -> (r: u8)
        ensures
            r == self.to_flag_spec(),
    {
        match self {
            AggCommandType::Min => 0,
            AggCommandType::Max => 1,
            AggCommandType::Sum => 2,
            AggCommandType::Avg => 3,
        }
    }
}

/// The least element, or the least 32-bit integer for an empty vector.
pub open spec fn min_val(s: Seq<i32>) -> i32
    decreases s.len(),
{
    if s.len() == 0 {
        i32::MIN
    } else if s.len() == 1 {
        s[0]
    } else {
        let m = min_val(s.drop_last());
        if s.last() < m {
            s.last()
        } else {
            m
        }
    }
}

/// The greatest element, or the greatest 32-bit integer for an empty vector.
pub open spec fn max_val(s: Seq<i32>) -> i32
    decreases s.len(),
{
    if s.len() == 0 {
        i32::MAX
    } else if s.len() == 1 {
        s[0]
    } else {
        let m = max_val(s.drop_last());
        if s.last() > m {
            s.last()
        } else {
            m
        }
    }
}

/// The exact mathematical sum of the elements.
pub open spec fn sum_int(s: Seq<i32>) -> int
    decreases s.len(),
{
    if s.len() == 0 {
        0
    } else {
        sum_int(s.drop_last()) + s.last()
    }
}

/// The aggregate a value vector reduces to under each command kind. The
/// sum is the 64-bit wrap of the exact sum; the average holds the same sum
/// with the element count, an exact rational.
pub open spec fn spec_agg(t: AggCommandType, vals: Seq<i32>) -> Numval {
    match t {
        AggCommandType::Min => Numval::I32(min_val(vals)),
        AggCommandType::Max => Numval::I32(max_val(vals)),
        AggCommandType::Sum => Numval::I64(wrap_to_i64(sum_int(vals)) as i64),
        AggCommandType::Avg => Numval::Avg {
            sum: wrap_to_i64(sum_int(vals)) as i64,
            count: vals.len() as u64,
        },
    }
}

pub fn min_value(values: &Vec<i32>) -> (r: i32)
    ensures
        r == min_val(values@),
{
    let mut r: i32 = i32::MIN;
    let mut i: usize = 0;
    while i < values.len()
        invariant
            i <= values@.len(),
            r == min_val(values@.take(i as int)),
        decreases values@.len() - i,
    {
        let v = values[i];
        proof {
            let cur = values@.take(i as int + 1);
            assert(cur.drop_last() =~= values@.take(i as int));
            assert(cur.last() == values@[i as int]);
        }
        if i == 0 || v < r {
            r = v;
        }
        i = i + 1;
    }
    proof {
        assert(values@.take(values@.len() as int) =~= values@);
    }
    r
}

pub fn max_value(values: &Vec<i32>) -> (r: i32)
    ensures
        r == max_val(values@),
{
    let mut r: i32 = i32::MAX;
    let mut i: usize = 0;
    while i < values.len()
        invariant
            i <= values@.len(),
            r == max_val(values@.take(i as int)),
        decreases values@.len() - i,
    {
        let v = values[i];
        proof {
            let cur = values@.take(i as int + 1);
            assert(cur.drop_last() =~= values@.take(i as int));
            assert(cur.last() == values@[i as int]);
        }
        if i == 0 || v > r {
            r = v;
        }
        i = i + 1;
    }
    proof {
        assert(values@.take(values@.len() as int) =~= values@);
    }
    r
}

/// The sum of the elements promoted to 64 bits, wrapping on overflow.
pub fn sum_wrapped(values: &Vec<i32>) -> (r: i64)
    ensures
        r as int == wrap_to_i64(sum_int(values@)),
        i64::MIN <= sum_int(values@) <= i64::MAX ==> r as int == sum_int(values@),
{
    let mut acc: i128 = 0;
    let mut i: usize = 0;
    while i < values.len()
        invariant
            i <= values@.len(),
            acc == sum_int(values@.take(i as int)),
            -(i as int) * 0x8000_0000 <= acc <= (i as int) * 0x8000_0000,
        decreases values@.len() - i,
    {
        let v = values[i];
        proof {
            let cur = values@.take(i as int + 1);
            assert(cur.drop_last() =~= values@.take(i as int));
            assert(cur.last() == values@[i as int]);
        }
        acc = acc + (v as i128);
        i = i + 1;
    }
    proof {
        assert(values@.take(values@.len() as int) =~= values@);
    }
    let ghost total = sum_int(values@);
    let r: i64;
    if acc >= -0x8000_0000_0000_0000i128 && acc <= 0x7fff_ffff_ffff_ffffi128 {
        r = acc as i64;
        proof {
            lemma_wrap_unique(total, r as int, 0x8000_0000_0000_0000);
        }
    } else {
        let neg = acc < 0;
        let mag: u128 = if neg {
            (-acc) as u128
        } else {
            acc as u128
        };
        let m: u128 = 0x1_0000_0000_0000_0000;
        let rem: u128 = mag % m;
        proof {
            vstd::arithmetic::div_mod::lemma_fundamental_div_mod(mag as int, m as int);
        }
        let wrapped: u128 = if neg && rem != 0 {
            m - rem
        } else if neg {
            0
        } else {
            rem
        };
        if wrapped >= 0x8000_0000_0000_0000u128 {
            r = ((wrapped as i128) - 0x1_0000_0000_0000_0000i128) as i64;
        } else {
            r = wrapped as i64;
        }
        proof {
            let q = (mag as int) / (m as int);
            assert(mag as int == (m as int) * q + (rem as int));
            let mi = m as int;
            if neg {
                if rem != 0 {
                    assert(acc as int == -(mi * q) - rem);
                    if wrapped >= 0x8000_0000_0000_0000u128 {
                        assert(r as int - acc as int == mi * (q + 1) - mi);
                        assert((r as int - acc as int) % mi == 0) by {
                            vstd::arithmetic::div_mod::lemma_mod_multiples_basic(q, mi);
                        }
                    } else {
                        assert(r as int - acc as int == mi * q + mi);
                        assert((r as int - acc as int) % mi == 0) by {
                            vstd::arithmetic::div_mod::lemma_mod_multiples_basic(q + 1, mi);
                        }
                    }
                } else {
                    assert(acc as int == -(mi * q));
                    assert(r as int - acc as int == mi * q);
                    assert((r as int - acc as int) % mi == 0) by {
                        vstd::arithmetic::div_mod::lemma_mod_multiples_basic(q, mi);
                    }
                }
            } else {
                if wrapped >= 0x8000_0000_0000_0000u128 {
                    assert(r as int - acc as int == -(mi * q) - mi);
                    assert((r as int - acc as int) % mi == 0) by {
                        vstd::arithmetic::div_mod::lemma_mod_multiples_basic(-q - 1, mi);
                    }
                } else {
                    assert(r as int - acc as int == -(mi * q));
                    assert((r as int - acc as int) % mi == 0) by {
                        vstd::arithmetic::div_mod::lemma_mod_multiples_basic(-q, mi);
                    }
                }
            }
            assert((total - r as int) % mi == 0);
            lemma_wrap_unique(total, r as int, 0x8000_0000_0000_0000);
        }
    }
    r
}

/// The full effect of an aggregation: the database is read only, value
/// and position vectors are untouched; a missing name is an execution
/// error; on success the output handle binds the exact aggregate.
pub open spec fn spec_agg_post(
    cmd: AggCommand,
    db0: Db,
    cc0: ClientContext,
    db1: Db,
    cc1: ClientContext,
    r: ServerMessage,
) -> bool {
    &&& db1 == db0
    &&& cc1.valvecs == cc0.valvecs
    &&& cc1.posvecs == cc0.posvecs
    &&& match cmd.out {
        None => r is Okay && cc1 == cc0,
        Some(out) => match crate::client_context::spec_lookup_values(
            &cc0,
            &db0,
            cmd.valvec_name@,
        ) {
            None => cc1 == cc0 && (r matches ServerMessage::ExecutionError(m) && m@
                == DbError::ValvecNotExist.spec_text()),
            Some(vals) => r is Okay && cc1.numvals@ == cc0.numvals@.insert(
                out@,
                spec_agg(cmd.agg_type, vals),
            ),
        },
    }
}

pub struct AggCommand {
    pub out: Option<String>,
    pub agg_type: AggCommandType,
    pub valvec_name: String,
}

impl AggCommand {
    /// One argument: the value vector to aggregate.
    pub fn parse(ctx: ParserContext) -> (r: (Option<AggCommand>, ServerMessage))
        requires
            ctx.flag <= 3,
        ensures
            ({
                let (cmd, msg) = r;
                if ctx.args@.len() == 1 {
                    msg is Okay && (cmd matches Some(c) && c.out == ctx.handles_str
                        && c.agg_type.to_flag_spec() == ctx.flag && c.valvec_name
                        == ctx.args@[0])
                } else {
                    msg is InvalidCommand && cmd is None
                }
            }),
    {
        let mut ctx = ctx;
        if ctx.args.len() != 1 {
            return (None, ServerMessage::InvalidCommand);
        }
        let name = ctx.args.remove(0);
        (
            Some(
                AggCommand {
                    out: ctx.handles_str,
                    agg_type: AggCommandType::from_flag(ctx.flag),
                    valvec_name: name,
                },
            ),
            ServerMessage::Okay,
        )
    }

    /// Aggregates the named value vector into a numeric scalar bound to the
    /// output handle.
    pub fn execute(&self, db: &mut Db, cc: &mut ClientContext) -> (r: ServerMessage)
        requires
            old(db).wf(),
            old(cc).wf(),
        ensures
            final(cc).wf(),
            spec_agg_post(*self, *old(db), *old(cc), *final(db), *final(cc), r),
    {
        let out = match &self.out {
            Some(out) => out,
            None => {
                return ServerMessage::Okay;
            },
        };
        let computed: Numval;
        match cc.lookup_values_by_name(self.valvec_name.as_str(), db) {
            Some(values) => {
                computed = match self.agg_type {
                    AggCommandType::Min => Numval::I32(min_value(values)),
                    AggCommandType::Max => Numval::I32(max_value(values)),
                    AggCommandType::Sum => Numval::I64(sum_wrapped(values)),
                    AggCommandType::Avg => Numval::Avg {
                        sum: sum_wrapped(values),
                        count: values.len() as u64,
                    },
                };
            },
            None => {
                return ServerMessage::ExecutionError(DbError::ValvecNotExist.text());
            },
        }
        cc.numvals.insert(out.as_str(), computed);
        ServerMessage::Okay
    }
}

} // verus!
