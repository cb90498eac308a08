//! The element-wise add and subtract commands over two equal-length value
//! vectors.

use crate::client_context::{spec_lookup_values, ClientContext, Valvec};
use crate::db::Db;
use crate::errors::DbError;
use crate::message::ServerMessage;
use crate::model::{lemma_wrap_unique, wrap_to_i32};
use crate::parse::ParserContext;
use crate::render::dec_int;
use vstd::prelude::*;

verus! {

pub enum AddsubCommandType {
    Add,
    Sub,
}

impl AddsubCommandType {
    pub fn from_flag(flag: u8) -> (r: AddsubCommandType)
        requires
            flag <= 1,
        ensures
            r.to_flag_spec() == flag,
    {
        if flag == 0 {
            AddsubCommandType::Add
        } else {
            AddsubCommandType::Sub
        }
    }

    pub open spec fn to_flag_spec(&self) -> u8 {
        match self {
            AddsubCommandType::Add => 0,
            AddsubCommandType::Sub => 1,
        }
    }

    pub fn to_flag(&self) -> (r: u8)
        ensures
            r == self.to_flag_spec(),
    {
        match self {
            AddsubCommandType::Add => 0,
            AddsubCommandType::Sub => 1,
        }
    }
}

/// The element-wise 32-bit sum or difference, wrapping on overflow.
pub open spec fn spec_addsub(t: AddsubCommandType, a: Seq<i32>, b: Seq<i32>) -> Seq<i32> {
    match t {
        AddsubCommandType::Add => Seq::new(a.len(), |i: int| wrap_to_i32(a[i] + b[i]) as i32),
        AddsubCommandType::Sub => Seq::new(a.len(), |i: int| wrap_to_i32(a[i] - b[i]) as i32),
    }
}

/// The error text for vectors of different lengths.
pub open spec fn length_mismatch_text(a: int, b: int) -> Seq<char> {
    "Value vectors have different lengths: "@ + dec_int(a) + " and "@ + dec_int(b)
}

/// One 32-bit wrapping addition or subtraction.
fn addsub_one(t_is_add: bool, a: i32, b: i32) -> (r: i32)
    ensures
        t_is_add ==> r as int == wrap_to_i32(a as int + b as int),
        !t_is_add ==> r as int == wrap_to_i32(a as int - b as int),
{
    let t: i64 = if t_is_add {
        (a as i64) + (b as i64)
    } else {
        (a as i64) - (b as i64)
    };
    let r: i32 = if t > 0x7fff_ffffi64 {
        (t - 0x1_0000_0000i64) as i32
    } else if t < -0x8000_0000i64 {
        (t + 0x1_0000_0000i64) as i32
    } else {
        t as i32
    };
    proof {
        let x = if t_is_add {
            a as int + b as int
        } else {
            a as int - b as int
        };
        assert((x - r as int) % 0x1_0000_0000 == 0) by {
            if x - r == 0x1_0000_0000 {
                vstd::arithmetic::div_mod::lemma_mod_multiples_basic(1, 0x1_0000_0000);
            } else if x - r == -0x1_0000_0000 {
                vstd::arithmetic::div_mod::lemma_mod_multiples_basic(-1, 0x1_0000_0000);
            } else {
                vstd::arithmetic::div_mod::lemma_mod_multiples_basic(0, 0x1_0000_0000);
            }
        }
        lemma_wrap_unique(x, r as int, 0x8000_0000);
    }
    r
}

/// The full effect of an add or sub: the database is read only, position
/// vectors and scalars are untouched; missing names and unequal lengths
/// are execution errors with their exact texts; on success the output
/// handle binds the element-wise combination.
pub open spec fn spec_addsub_post(
    cmd: AddsubCommand,
    db0: Db,
    cc0: ClientContext,
    db1: Db,
    cc1: ClientContext,
    r: ServerMessage,
) -> bool {
    &&& db1 == db0
    &&& cc1.posvecs == cc0.posvecs
    &&& cc1.numvals == cc0.numvals
    &&& match cmd.out {
        None => r is Okay && cc1 == cc0,
        Some(out) => {
            let v1 = spec_lookup_values(&cc0, &db0, cmd.valvec1_name@);
            let v2 = spec_lookup_values(&cc0, &db0, cmd.valvec2_name@);
            if v1 is None || v2 is None {
                cc1 == cc0 && (r matches ServerMessage::ExecutionError(m) && m@
                    == DbError::ValvecNotExist.spec_text())
            } else if v1.unwrap().len() != v2.unwrap().len() {
                cc1 == cc0 && (r matches ServerMessage::ExecutionError(m) && m@
                    == length_mismatch_text(v1.unwrap().len() as int, v2.unwrap().len() as int))
            } else {
                r is Okay && (cc1.valvecs@ == cc0.valvecs@.insert(out@, cc1.valvecs@[out@]))
                    && cc1.valvecs@[out@].values@ == spec_addsub(
                    cmd.addsub_type,
                    v1.unwrap(),
                    v2.unwrap(),
                )
            }
        },
    }
}

pub struct AddsubCommand {
    pub out: Option<String>,
    pub addsub_type: AddsubCommandType,
    pub valvec1_name: String,
    pub valvec2_name: String,
}

impl AddsubCommand {
    /// Two arguments: the vectors to combine.
    pub fn parse(ctx: ParserContext) -> (r: (Option<AddsubCommand>, ServerMessage))
        requires
            ctx.flag <= 1,
        ensures
            ({
                let (cmd, msg) = r;
                if ctx.args@.len() == 2 {
                    msg is Okay && (cmd matches Some(c) && c.out == ctx.handles_str
                        && c.addsub_type.to_flag_spec() == ctx.flag && c.valvec1_name
                        == ctx.args@[0] && c.valvec2_name == ctx.args@[1])
                } else {
                    msg is InvalidCommand && cmd is None
                }
            }),
    {
        let mut ctx = ctx;
        if ctx.args.len() != 2 {
            return (None, ServerMessage::InvalidCommand);
        }
        let name2 = ctx.args.remove(1);
        let name1 = ctx.args.remove(0);
        (
            Some(
                AddsubCommand {
                    out: ctx.handles_str,
                    addsub_type: AddsubCommandType::from_flag(ctx.flag),
                    valvec1_name: name1,
                    valvec2_name: name2,
                },
            ),
            ServerMessage::Okay,
        )
    }

    /// Binds the output handle to the element-wise combination; vectors of
    /// different lengths are an execution error.
    pub fn execute(&self, db: &mut Db, cc: &mut ClientContext) -> (r: ServerMessage)
        requires
            old(db).wf(),
            old(cc).wf(),
        ensures
            final(cc).wf(),
            spec_addsub_post(*self, *old(db), *old(cc), *final(db), *final(cc), r),
    {
        let out = match &self.out {
            Some(out) => out,
            None => {
                return ServerMessage::Okay;
            },
        };
        let computed: Vec<i32>;
        match cc.lookup_values_by_name(self.valvec1_name.as_str(), db) {
            Some(values1) => {
                match cc.lookup_values_by_name(self.valvec2_name.as_str(), db) {
                    Some(values2) => {
                        if values1.len() != values2.len() {
                            let mut msg =
                                "Value vectors have different lengths: ".to_owned();
                            let a = crate::render::u64_to_string(values1.len() as u64);
                            msg.append(a.as_str());
                            msg.append(" and ");
                            let b = crate::render::u64_to_string(values2.len() as u64);
                            msg.append(b.as_str());
                            proof {
                                reveal_strlit("Value vectors have different lengths: ");
                                reveal_strlit(" and ");
                                assert(msg@ =~= length_mismatch_text(
                                    values1@.len() as int,
                                    values2@.len() as int,
                                ));
                            }
                            return ServerMessage::ExecutionError(msg);
                        }
                        let is_add = matches!(self.addsub_type, AddsubCommandType::Add);
                        let mut outv: Vec<i32> = Vec::new();
                        let ghost want = spec_addsub(self.addsub_type, values1@, values2@);
                        let mut i: usize = 0;
                        while i < values1.len()
                            invariant
                                i <= values1@.len(),
                                values1@.len() == values2@.len(),
                                is_add == self.addsub_type is Add,
                                want == spec_addsub(self.addsub_type, values1@, values2@),
                                want.len() == values1@.len(),
                                outv@.len() == i,
                                forall|j: int| 0 <= j < i ==> outv@[j] == want[j],
                            decreases values1@.len() - i,
                        {
                            outv.push(addsub_one(is_add, values1[i], values2[i]));
                            i = i + 1;
                        }
                        proof {
                            assert(outv@ =~= want);
                        }
                        computed = outv;
                    },
                    None => {
                        return ServerMessage::ExecutionError(DbError::ValvecNotExist.text());
                    },
                }
            },
            None => {
                return ServerMessage::ExecutionError(DbError::ValvecNotExist.text());
            },
        }
        cc.valvecs.insert(out.as_str(), Valvec { values: computed });
        ServerMessage::Okay
    }
}

} // verus!
