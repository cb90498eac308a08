//! The equijoin command: pairs of caller positions whose values match,
//! by nested loop or by building a value-to-positions map on the smaller
//! side and probing with the larger.

use crate::client_context::{spec_lookup_values, ClientContext, Posvec};
use crate::db::Db;
use crate::errors::DbError;
use crate::message::ServerMessage;
use crate::parse::ParserContext;
use vstd::prelude::*;

verus! {

pub enum JoinCommandAlg {
    NestedLoop,
    NaiveHash,
    GraceHash,
    Hash,
}

pub struct JoinCommand {
    pub outs: Option<(String, String)>,
    pub valvec1_name: String,
    pub posvec1_name: String,
    pub valvec2_name: String,
    pub posvec2_name: String,
    pub join_alg: JoinCommandAlg,
}

/// The pairs one left row contributes: its position against the position
/// of every matching right element, in right order. Mismatched lengths
/// truncate to the shorter, as zipping does.
pub open spec fn row_pairs(x: i32, px: usize, v2: Seq<i32>, p2: Seq<usize>) -> Seq<(usize, usize)>
    decreases v2.len(),
{
    if v2.len() == 0 || p2.len() == 0 {
        Seq::empty()
    } else {
        (if v2[0] == x {
            seq![(px, p2[0])]
        } else {
            Seq::empty()
        }) + row_pairs(x, px, v2.drop_first(), p2.drop_first())
    }
}

/// The reference join order: left-major, each left row against the whole
/// right side.
pub open spec fn join_pairs(v1: Seq<i32>, p1: Seq<usize>, v2: Seq<i32>, p2: Seq<usize>) -> Seq<
    (usize, usize),
>
    decreases v1.len(),
{
    if v1.len() == 0 || p1.len() == 0 {
        Seq::empty()
    } else {
        row_pairs(v1[0], p1[0], v2, p2) + join_pairs(v1.drop_first(), p1.drop_first(), v2, p2)
    }
}

/// Both components of every pair exchanged.
pub open spec fn swap_pairs(s: Seq<(usize, usize)>) -> Seq<(usize, usize)> {
    s.map_values(|p: (usize, usize)| (p.1, p.0))
}

/// The two output vectors read as a sequence of pairs.
pub open spec fn pairs_of(a: Seq<usize>, b: Seq<usize>) -> Seq<(usize, usize)>
    recommends
        a.len() == b.len(),
{
    Seq::new(a.len(), |k: int| (a[k], b[k]))
}

/// The probe-major order a hash join emits: for each probe row, the
/// matching build positions in build order, paired as (build, probe).
pub open spec fn hash_join_pairs(
    bv: Seq<i32>,
    bp: Seq<usize>,
    pv: Seq<i32>,
    pp: Seq<usize>,
) -> Seq<(usize, usize)>
    decreases pv.len(),
{
    if pv.len() == 0 || pp.len() == 0 {
        Seq::empty()
    } else {
        swap_pairs(row_pairs(pv[0], pp[0], bv, bp)) + hash_join_pairs(
            bv,
            bp,
            pv.drop_first(),
            pp.drop_first(),
        )
    }
}

/// The pair sequence the configured hash join produces: the shorter side
/// is built, the longer probed, and the outputs swapped back so that the
/// first output always belongs to the first side.
pub open spec fn hash_result(v1: Seq<i32>, p1: Seq<usize>, v2: Seq<i32>, p2: Seq<usize>) -> Seq<
    (usize, usize),
> {
    if v1.len() < v2.len() {
        hash_join_pairs(v1, p1, v2, p2)
    } else {
        swap_pairs(hash_join_pairs(v2, p2, v1, p1))
    }
}

/// The positions of the matching elements of one side, in order.
pub open spec fn matching_positions(x: i32, v: Seq<i32>, p: Seq<usize>) -> Seq<usize>
    decreases v.len(),
{
    if v.len() == 0 || p.len() == 0 {
        Seq::empty()
    } else {
        (if v[0] == x {
            seq![p[0]]
        } else {
            Seq::empty()
        }) + matching_positions(x, v.drop_first(), p.drop_first())
    }
}

/// A row's pairs are its position against each matching position.
proof fn lemma_row_pairs_as_matching(x: i32, px: usize, v2: Seq<i32>, p2: Seq<usize>)
    ensures
        row_pairs(x, px, v2, p2) == matching_positions(x, v2, p2).map_values(
            |b: usize| (px, b),
        ),
    decreases v2.len(),
{
    if v2.len() == 0 || p2.len() == 0 {
        assert(row_pairs(x, px, v2, p2) =~= matching_positions(x, v2, p2).map_values(
            |b: usize| (px, b),
        ));
    } else {
        lemma_row_pairs_as_matching(x, px, v2.drop_first(), p2.drop_first());
        assert(row_pairs(x, px, v2, p2) =~= matching_positions(x, v2, p2).map_values(
            |b: usize| (px, b),
        ));
    }
}

/// The association entries as specification values.
pub open spec fn groups_model(gs: Seq<(i32, Vec<usize>)>) -> Seq<(i32, Seq<usize>)> {
    gs.map_values(|g: (i32, Vec<usize>)| (g.0, g.1@))
}

/// The value-to-positions map of the build side: association entries in
/// first-seen order, each holding that value's positions in side order.
pub open spec fn group_of(gs: Seq<(i32, Seq<usize>)>, x: i32) -> Seq<usize>
    decreases gs.len(),
{
    if gs.len() == 0 {
        Seq::empty()
    } else if gs[0].0 == x {
        gs[0].1
    } else {
        group_of(gs.drop_first(), x)
    }
}

/// Finds the entry holding the given value.
fn find_group(groups: &Vec<(i32, Vec<usize>)>, x: i32) -> (r: Option<usize>)
    ensures
        ({
            let m = groups_model(groups@);
            match r {
                Some(g) => g < groups@.len() && groups@[g as int].0 == x && forall|j: int|
                    0 <= j < g ==> (#[trigger] groups@[j]).0 != x,
                None => forall|j: int| 0 <= j < groups@.len() ==> (#[trigger] groups@[j]).0 != x,
            }
        }),
{
    let mut i: usize = 0;
    while i < groups.len()
        invariant
            i <= groups@.len(),
            forall|j: int| 0 <= j < i ==> (#[trigger] groups@[j]).0 != x,
        decreases groups@.len() - i,
    {
        if groups[i].0 == x {
            return Some(i);
        }
        i = i + 1;
    }
    None
}

/// With no entry for a value, its group is empty; with one, it is that
/// entry's positions.
proof fn lemma_group_of_lookup(gs: Seq<(i32, Seq<usize>)>, x: i32, g: int)
    requires
        0 <= g <= gs.len(),
        forall|j: int| 0 <= j < g ==> (#[trigger] gs[j]).0 != x,
        g < gs.len() ==> gs[g].0 == x,
    ensures
        group_of(gs, x) == if g < gs.len() {
            gs[g].1
        } else {
            Seq::<usize>::empty()
        },
    decreases gs.len(),
{
    if gs.len() > 0 {
        if g == 0 {
        } else {
            assert(forall|j: int|
                0 <= j < g - 1 ==> #[trigger] gs.drop_first()[j] == gs[j + 1]);
            lemma_group_of_lookup(gs.drop_first(), x, g - 1);
        }
    }
}

/// The full effect of a join: the database is read only, value vectors
/// and scalars are untouched; missing names are execution errors in
/// resolution order; on success the two output handles bind position
/// vectors whose pairs are exactly the chosen algorithm's output.
pub open spec fn spec_join_post(
    cmd: JoinCommand,
    db0: Db,
    cc0: ClientContext,
    db1: Db,
    cc1: ClientContext,
    r: ServerMessage,
) -> bool {
    &&& db1 == db0
    &&& cc1.valvecs == cc0.valvecs
    &&& cc1.numvals == cc0.numvals
    &&& match cmd.outs {
        None => r is Okay && cc1 == cc0,
        Some((out1, out2)) => ({
            let v1 = spec_lookup_values(&cc0, &db0, cmd.valvec1_name@);
            let v2 = spec_lookup_values(&cc0, &db0, cmd.valvec2_name@);
            let p1_there = cc0.posvecs@.contains_key(cmd.posvec1_name@);
            let p2_there = cc0.posvecs@.contains_key(cmd.posvec2_name@);
            if v1 is None {
                cc1 == cc0 && (r matches ServerMessage::ExecutionError(m) && m@
                    == DbError::ValvecNotExist.spec_text())
            } else if !p1_there {
                cc1 == cc0 && (r matches ServerMessage::ExecutionError(m) && m@
                    == DbError::PosvecNotExist.spec_text())
            } else if v2 is None {
                cc1 == cc0 && (r matches ServerMessage::ExecutionError(m) && m@
                    == DbError::ValvecNotExist.spec_text())
            } else if !p2_there {
                cc1 == cc0 && (r matches ServerMessage::ExecutionError(m) && m@
                    == DbError::PosvecNotExist.spec_text())
            } else {
                let p1 = cc0.posvecs@[cmd.posvec1_name@].positions@;
                let p2 = cc0.posvecs@[cmd.posvec2_name@].positions@;
                let pairs = match cmd.join_alg {
                    JoinCommandAlg::NestedLoop => join_pairs(v1.unwrap(), p1, v2.unwrap(), p2),
                    _ => hash_result(v1.unwrap(), p1, v2.unwrap(), p2),
                };
                r is Okay && exists|pv1: Posvec, pv2: Posvec|
                    pv1.positions@.len() == pv2.positions@.len() && pairs_of(
                        pv1.positions@,
                        pv2.positions@,
                    ) == pairs && cc1.posvecs@ == #[trigger] cc0.posvecs@.insert(
                        out1@,
                        pv1,
                    ).insert(out2@, pv2)
            }
        }),
    }
}

impl JoinCommand {
    /// Five arguments: two value/position vector pairs and the algorithm.
    pub fn parse(ctx: ParserContext) -> (r: (Option<JoinCommand>, ServerMessage))
        ensures
            ({
                let (cmd, msg) = r;
                let args = ctx.args@.map_values(|s: String| s@);
                if args.len() != 5 {
                    msg is InvalidCommand && cmd is None
                } else if !(args[4] == "nested-loop"@ || args[4] == "naive-hash"@ || args[4]
                    == "grace-hash"@ || args[4] == "hash"@) {
                    msg is InvalidCommand && cmd is None
                } else {
                    msg is Okay && (cmd matches Some(c) && c.valvec1_name == ctx.args@[0]
                        && c.posvec1_name == ctx.args@[1] && c.valvec2_name == ctx.args@[2]
                        && c.posvec2_name == ctx.args@[3])
                }
            }),
    {
        proof {
            reveal_strlit("nested-loop");
            reveal_strlit("naive-hash");
            reveal_strlit("grace-hash");
            reveal_strlit("hash");
        }
        if ctx.args.len() != 5 {
            return (None, ServerMessage::InvalidCommand);
        }
        let join_alg = if crate::text::str_eq(ctx.args[4].as_str(), "nested-loop") {
            JoinCommandAlg::NestedLoop
        } else if crate::text::str_eq(ctx.args[4].as_str(), "naive-hash") {
            JoinCommandAlg::NaiveHash
        } else if crate::text::str_eq(ctx.args[4].as_str(), "grace-hash") {
            JoinCommandAlg::GraceHash
        } else if crate::text::str_eq(ctx.args[4].as_str(), "hash") {
            JoinCommandAlg::Hash
        } else {
            return (None, ServerMessage::InvalidCommand);
        };
        let outs = match &ctx.handles_str {
            Some(handles_str) => {
                let parts = crate::text::split_all(handles_str.as_str(), ',');
                if parts.len() >= 2 {
                    let out1 = crate::text::trim(parts[0].as_str());
                    let out2 = crate::text::trim(parts[1].as_str());
                    Some((out1, out2))
                } else {
                    None
                }
            },
            None => None,
        };
        let mut ctx = ctx;
        let posvec2_name = ctx.args.remove(3);
        let valvec2_name = ctx.args.remove(2);
        let posvec1_name = ctx.args.remove(1);
        let valvec1_name = ctx.args.remove(0);
        (
            Some(
                JoinCommand {
                    outs,
                    valvec1_name,
                    posvec1_name,
                    valvec2_name,
                    posvec2_name,
                    join_alg,
                },
            ),
            ServerMessage::Okay,
        )
    }

    /// The doubly nested reference join, in left-major order.
    pub fn nested_loop_join(
        &self,
        values1: &Vec<i32>,
        positions1: &Vec<usize>,
        values2: &Vec<i32>,
        positions2: &Vec<usize>,
    ) -> (r: (Vec<usize>, Vec<usize>))
        ensures
            r.0@.len() == r.1@.len(),
            pairs_of(r.0@, r.1@) == join_pairs(values1@, positions1@, values2@, positions2@),
    {
        let mut out1: Vec<usize> = Vec::new();
        let mut out2: Vec<usize> = Vec::new();
        let n1 = if positions1.len() < values1.len() {
            positions1.len()
        } else {
            values1.len()
        };
        let n2 = if positions2.len() < values2.len() {
            positions2.len()
        } else {
            values2.len()
        };
        let ghost full = join_pairs(values1@, positions1@, values2@, positions2@);
        let mut i: usize = 0;
        proof {
            assert(values1@.skip(0) =~= values1@);
            assert(positions1@.skip(0) =~= positions1@);
            assert(pairs_of(out1@, out2@) =~= Seq::<(usize, usize)>::empty());
        }
        while i < n1
            invariant
                i <= n1,
                n1 == vstd::math::min(values1@.len() as int, positions1@.len() as int),
                n2 == vstd::math::min(values2@.len() as int, positions2@.len() as int),
                out1@.len() == out2@.len(),
                full == join_pairs(values1@, positions1@, values2@, positions2@),
                full == pairs_of(out1@, out2@) + join_pairs(
                    values1@.skip(i as int),
                    positions1@.skip(i as int),
                    values2@,
                    positions2@,
                ),
            decreases n1 - i,
        {
            let x = values1[i];
            let px = positions1[i];
            let ghost row = row_pairs(x, px, values2@, positions2@);
            let ghost done = pairs_of(out1@, out2@);
            proof {
                let v1s = values1@.skip(i as int);
                let p1s = positions1@.skip(i as int);
                assert(v1s[0] == x && p1s[0] == px);
                assert(v1s.drop_first() =~= values1@.skip(i as int + 1));
                assert(p1s.drop_first() =~= positions1@.skip(i as int + 1));
                assert(join_pairs(v1s, p1s, values2@, positions2@) == row + join_pairs(
                    values1@.skip(i as int + 1),
                    positions1@.skip(i as int + 1),
                    values2@,
                    positions2@,
                ));
                assert(values2@.skip(0) =~= values2@);
                assert(positions2@.skip(0) =~= positions2@);
            }
            let mut j: usize = 0;
            while j < n2
                invariant
                    j <= n2,
                    i < n1,
                    n1 == vstd::math::min(values1@.len() as int, positions1@.len() as int),
                    n2 == vstd::math::min(values2@.len() as int, positions2@.len() as int),
                    x == values1@[i as int],
                    px == positions1@[i as int],
                    out1@.len() == out2@.len(),
                    row == row_pairs(x, px, values2@, positions2@),
                    done == pairs_of(out1@.take(done.len() as int), out2@.take(done.len() as int)),
                    done == pairs_of(out1@, out2@).take(done.len() as int),
                    done.len() <= out1@.len(),
                    row == pairs_of(out1@, out2@).skip(done.len() as int) + row_pairs(
                        x,
                        px,
                        values2@.skip(j as int),
                        positions2@.skip(j as int),
                    ),
                decreases n2 - j,
            {
                let ghost v2s = values2@.skip(j as int);
                let ghost p2s = positions2@.skip(j as int);
                proof {
                    assert(v2s[0] == values2@[j as int] && p2s[0] == positions2@[j as int]);
                    assert(v2s.drop_first() =~= values2@.skip(j as int + 1));
                    assert(p2s.drop_first() =~= positions2@.skip(j as int + 1));
                }
                if values2[j] == x {
                    out1.push(px);
                    out2.push(positions2[j]);
                    proof {
                        assert(pairs_of(out1@, out2@) =~= pairs_of(
                            out1@.drop_last(),
                            out2@.drop_last(),
                        ).push((px, positions2@[j as int])));
                        assert(pairs_of(out1@, out2@).skip(done.len() as int) =~= pairs_of(
                            out1@.drop_last(),
                            out2@.drop_last(),
                        ).skip(done.len() as int).push((px, positions2@[j as int])));
                        assert(row =~= pairs_of(out1@, out2@).skip(done.len() as int)
                            + row_pairs(x, px, values2@.skip(j as int + 1), positions2@.skip(
                            j as int + 1,
                        )));
                        assert(done =~= pairs_of(
                            out1@.take(done.len() as int),
                            out2@.take(done.len() as int),
                        ));
                    }
                } else {
                    proof {
                        assert(row_pairs(x, px, v2s, p2s) == row_pairs(
                            x,
                            px,
                            values2@.skip(j as int + 1),
                            positions2@.skip(j as int + 1),
                        ));
                    }
                }
                j = j + 1;
            }
            proof {
                assert(row_pairs(x, px, values2@.skip(n2 as int), positions2@.skip(n2 as int))
                    =~= Seq::<(usize, usize)>::empty());
                assert(row =~= pairs_of(out1@, out2@).skip(done.len() as int));
                assert(pairs_of(out1@, out2@) =~= done + row);
            }
            i = i + 1;
        }
        proof {
            assert(join_pairs(
                values1@.skip(n1 as int),
                positions1@.skip(n1 as int),
                values2@,
                positions2@,
            ) =~= Seq::<(usize, usize)>::empty());
            assert(pairs_of(out1@, out2@) =~= full);
        }
        (out1, out2)
    }

    /// Builds a value-to-positions map on the smaller side and probes it
    /// with the larger; the outputs are swapped back so the first always
    /// belongs to the first side.
    pub fn naive_hash_join(
        &self,
        values1: &Vec<i32>,
        positions1: &Vec<usize>,
        values2: &Vec<i32>,
        positions2: &Vec<usize>,
    ) -> (r: (Vec<usize>, Vec<usize>))
        ensures
            r.0@.len() == r.1@.len(),
            pairs_of(r.0@, r.1@) == hash_result(values1@, positions1@, values2@, positions2@),
    {
        let no_swap = values1.len() < values2.len();
        let (build_values, build_positions, probe_values, probe_positions) = if no_swap {
            (values1, positions1, values2, positions2)
        } else {
            (values2, positions2, values1, positions1)
        };
        let (build_joined, probe_joined) = hash_join_kernel(
            build_values,
            build_positions,
            probe_values,
            probe_positions,
        );
        if no_swap {
            (build_joined, probe_joined)
        } else {
            proof {
                assert(pairs_of(probe_joined@, build_joined@) =~= swap_pairs(
                    pairs_of(build_joined@, probe_joined@),
                ));
            }
            (probe_joined, build_joined)
        }
    }

    /// Reserved variant; currently behaves as the naive hash join.
    pub fn grace_hash_join(
        &self,
        values1: &Vec<i32>,
        positions1: &Vec<usize>,
        values2: &Vec<i32>,
        positions2: &Vec<usize>,
    ) -> (r: (Vec<usize>, Vec<usize>))
        ensures
            r.0@.len() == r.1@.len(),
            pairs_of(r.0@, r.1@) == hash_result(values1@, positions1@, values2@, positions2@),
    {
        self.naive_hash_join(values1, positions1, values2, positions2)
    }

    /// Resolves both sides, joins by the chosen algorithm, and binds the
    /// two output handles to the paired position vectors.
    pub fn execute(&self, db: &mut Db, cc: &mut ClientContext) -> (r: ServerMessage)
        requires
            old(db).wf(),
            old(cc).wf(),
        ensures
            final(cc).wf(),
            spec_join_post(*self, *old(db), *old(cc), *final(db), *final(cc), r),
    {
        let (out1, out2) = match &self.outs {
            Some(outs) => (&outs.0, &outs.1),
            None => {
                return ServerMessage::Okay;
            },
        };
        let joined1: Vec<usize>;
        let joined2: Vec<usize>;
        {
            let values1 = match cc.lookup_values_by_name(self.valvec1_name.as_str(), db) {
                Some(values) => values,
                None => {
                    return ServerMessage::ExecutionError(DbError::ValvecNotExist.text());
                },
            };
            let positions1 = match cc.posvecs.get(self.posvec1_name.as_str()) {
                Some(posvec) => &posvec.positions,
                None => {
                    return ServerMessage::ExecutionError(DbError::PosvecNotExist.text());
                },
            };
            let values2 = match cc.lookup_values_by_name(self.valvec2_name.as_str(), db) {
                Some(values) => values,
                None => {
                    return ServerMessage::ExecutionError(DbError::ValvecNotExist.text());
                },
            };
            let positions2 = match cc.posvecs.get(self.posvec2_name.as_str()) {
                Some(posvec) => &posvec.positions,
                None => {
                    return ServerMessage::ExecutionError(DbError::PosvecNotExist.text());
                },
            };
            let joined = match self.join_alg {
                JoinCommandAlg::NestedLoop => self.nested_loop_join(
                    values1,
                    positions1,
                    values2,
                    positions2,
                ),
                JoinCommandAlg::NaiveHash => self.naive_hash_join(
                    values1,
                    positions1,
                    values2,
                    positions2,
                ),
                JoinCommandAlg::GraceHash => self.grace_hash_join(
                    values1,
                    positions1,
                    values2,
                    positions2,
                ),
                JoinCommandAlg::Hash => self.hash_join(values1, positions1, values2, positions2),
            };
            joined1 = joined.0;
            joined2 = joined.1;
        }
        let pv1 = Posvec { positions: joined1 };
        let pv2 = Posvec { positions: joined2 };
        let ghost w1 = pv1;
        let ghost w2 = pv2;
        cc.posvecs.insert(out1.as_str(), pv1);
        cc.posvecs.insert(out2.as_str(), pv2);
        proof {
            assert(cc.posvecs@ == old(cc).posvecs@.insert(out1@, w1).insert(out2@, w2));
        }
        ServerMessage::Okay
    }

    /// Reserved variant; currently behaves as the naive hash join.
    pub fn hash_join(
        &self,
        values1: &Vec<i32>,
        positions1: &Vec<usize>,
        values2: &Vec<i32>,
        positions2: &Vec<usize>,
    ) -> (r: (Vec<usize>, Vec<usize>))
        ensures
            r.0@.len() == r.1@.len(),
            pairs_of(r.0@, r.1@) == hash_result(values1@, positions1@, values2@, positions2@),
    {
        self.naive_hash_join(values1, positions1, values2, positions2)
    }
}

/// A group lookup is untouched when every entry of its key is untouched
/// and no key changed.
proof fn lemma_group_of_congruent(m1: Seq<(i32, Seq<usize>)>, m2: Seq<(i32, Seq<usize>)>, x: i32)
    requires
        m1.len() == m2.len(),
        forall|j: int| 0 <= j < m1.len() ==> (#[trigger] m1[j]).0 == m2[j].0,
        forall|j: int| 0 <= j < m1.len() && (#[trigger] m1[j]).0 == x ==> m1[j].1 == m2[j].1,
    ensures
        group_of(m1, x) == group_of(m2, x),
    decreases m1.len(),
{
    if m1.len() > 0 {
        assert(forall|j: int|
            0 <= j < m1.len() - 1 ==> #[trigger] m1.drop_first()[j] == m1[j + 1]);
        assert(forall|j: int|
            0 <= j < m2.len() - 1 ==> #[trigger] m2.drop_first()[j] == m2[j + 1]);
        lemma_group_of_congruent(m1.drop_first(), m2.drop_first(), x);
    }
}

/// Appending an entry for another key leaves a group untouched.
proof fn lemma_group_of_push(m: Seq<(i32, Seq<usize>)>, e: (i32, Seq<usize>), x: i32)
    requires
        e.0 != x,
    ensures
        group_of(m.push(e), x) == group_of(m, x),
    decreases m.len(),
{
    if m.len() == 0 {
        assert(m.push(e)[0] == e);
        assert(m.push(e).drop_first() =~= Seq::<(i32, Seq<usize>)>::empty());
        assert(group_of(Seq::<(i32, Seq<usize>)>::empty(), x) == Seq::<usize>::empty());
        assert(group_of(m, x) == Seq::<usize>::empty());
    } else {
        assert(m.push(e).drop_first() =~= m.drop_first().push(e));
        lemma_group_of_push(m.drop_first(), e, x);
    }
}

/// The build-then-probe kernel, emitting (build position, probe position)
/// pairs in probe order.
fn hash_join_kernel(
    build_values: &Vec<i32>,
    build_positions: &Vec<usize>,
    probe_values: &Vec<i32>,
    probe_positions: &Vec<usize>,
) -> (r: (Vec<usize>, Vec<usize>))
    ensures
        r.0@.len() == r.1@.len(),
        pairs_of(r.0@, r.1@) == hash_join_pairs(
            build_values@,
            build_positions@,
            probe_values@,
            probe_positions@,
        ),
{
    let bv = build_values;
    let bp = build_positions;
    let n_b = if bp.len() < bv.len() {
        bp.len()
    } else {
        bv.len()
    };
    let mut groups: Vec<(i32, Vec<usize>)> = Vec::new();
    let mut i: usize = 0;
    proof {
        assert(bv@.skip(0) =~= bv@);
        assert(bp@.skip(0) =~= bp@);
        let m = groups_model(groups@);
        assert(m =~= Seq::<(i32, Seq<usize>)>::empty());
        assert(forall|x: i32|
            #[trigger] group_of(m, x) + matching_positions(x, bv@.skip(0), bp@.skip(0))
                =~= matching_positions(x, bv@, bp@));
    }
    while i < n_b
        invariant
            i <= n_b,
            n_b == vstd::math::min(bv@.len() as int, bp@.len() as int),
            forall|a: int, b: int|
                0 <= a < b < groups@.len() ==> (#[trigger] groups@[a]).0 != (
                #[trigger] groups@[b]).0,
            forall|x: i32|
                #[trigger] group_of(groups_model(groups@), x)
                    + matching_positions(x, bv@.skip(i as int), bp@.skip(i as int))
                    == matching_positions(x, bv@, bp@),
        decreases n_b - i,
    {
        let x0 = bv[i];
        let pos0 = bp[i];
        let ghost m0 = groups_model(groups@);
        proof {
            let vs = bv@.skip(i as int);
            let ps = bp@.skip(i as int);
            assert(vs[0] == x0 && ps[0] == pos0);
            assert(vs.drop_first() =~= bv@.skip(i as int + 1));
            assert(ps.drop_first() =~= bp@.skip(i as int + 1));
        }
        match find_group(&groups, x0) {
            Some(g) => {
                proof {
                    lemma_group_of_lookup(m0, x0, g as int);
                }
                let list = &mut groups[g].1;
                list.push(pos0);
                proof {
                    let m1 = groups_model(groups@);
                    assert(forall|j: int|
                        0 <= j < m1.len() && j != g ==> #[trigger] m1[j] == m0[j]);
                    assert(m1[g as int].0 == x0 && m1[g as int].1 == m0[g as int].1.push(pos0));
                    lemma_group_of_lookup(m1, x0, g as int);
                    assert forall|x: i32|
                        #[trigger] group_of(m1, x) + matching_positions(
                            x,
                            bv@.skip(i as int + 1),
                            bp@.skip(i as int + 1),
                        ) == matching_positions(x, bv@, bp@) by {
                        if x == x0 {
                            assert(group_of(m1, x0) =~= group_of(m0, x0).push(pos0));
                            assert(matching_positions(x0, bv@.skip(i as int), bp@.skip(i as int))
                                == seq![pos0] + matching_positions(
                                x0,
                                bv@.skip(i as int + 1),
                                bp@.skip(i as int + 1),
                            ));
                            assert(group_of(m0, x0) + (seq![pos0] + matching_positions(
                                x0,
                                bv@.skip(i as int + 1),
                                bp@.skip(i as int + 1),
                            )) =~= group_of(m0, x0).push(pos0) + matching_positions(
                                x0,
                                bv@.skip(i as int + 1),
                                bp@.skip(i as int + 1),
                            ));
                        } else {
                            lemma_group_of_congruent(m0, m1, x);
                            assert(matching_positions(x, bv@.skip(i as int), bp@.skip(i as int))
                                == matching_positions(
                                x,
                                bv@.skip(i as int + 1),
                                bp@.skip(i as int + 1),
                            ));
                        }
                    }
                }
            },
            None => {
                let mut list: Vec<usize> = Vec::new();
                list.push(pos0);
                groups.push((x0, list));
                proof {
                    let m1 = groups_model(groups@);
                    assert(m1 =~= m0.push((x0, seq![pos0])));
                    lemma_group_of_lookup(m0, x0, m0.len() as int);
                    lemma_group_of_lookup(m1, x0, m0.len() as int);
                    assert forall|x: i32|
                        #[trigger] group_of(m1, x) + matching_positions(
                            x,
                            bv@.skip(i as int + 1),
                            bp@.skip(i as int + 1),
                        ) == matching_positions(x, bv@, bp@) by {
                        if x == x0 {
                            assert(group_of(m1, x0) == seq![pos0]);
                            assert(group_of(m0, x0) =~= Seq::<usize>::empty());
                            assert(matching_positions(x0, bv@.skip(i as int), bp@.skip(i as int))
                                == seq![pos0] + matching_positions(
                                x0,
                                bv@.skip(i as int + 1),
                                bp@.skip(i as int + 1),
                            ));
                            assert(group_of(m0, x0) + (seq![pos0] + matching_positions(
                                x0,
                                bv@.skip(i as int + 1),
                                bp@.skip(i as int + 1),
                            )) =~= seq![pos0] + matching_positions(
                                x0,
                                bv@.skip(i as int + 1),
                                bp@.skip(i as int + 1),
                            ));
                        } else {
                            lemma_group_of_push(m0, (x0, seq![pos0]), x);
                            assert(matching_positions(x, bv@.skip(i as int), bp@.skip(i as int))
                                == matching_positions(
                                x,
                                bv@.skip(i as int + 1),
                                bp@.skip(i as int + 1),
                            ));
                        }
                    }
                }
            },
        }
        i = i + 1;
    }
    proof {
        let m = groups_model(groups@);
        assert forall|x: i32| #[trigger] group_of(m, x) == matching_positions(x, bv@, bp@) by {
            assert(matching_positions(x, bv@.skip(n_b as int), bp@.skip(n_b as int)) =~= Seq::<
                usize,
            >::empty());
            assert(group_of(m, x) + Seq::<usize>::empty() =~= group_of(m, x));
        }
    }
    let pv = probe_values;
    let pp = probe_positions;
    let n_p = if pp.len() < pv.len() {
        pp.len()
    } else {
        pv.len()
    };
    let ghost full = hash_join_pairs(bv@, bp@, pv@, pp@);
    let mut rb: Vec<usize> = Vec::new();
    let mut rp: Vec<usize> = Vec::new();
    let mut j: usize = 0;
    proof {
        assert(pv@.skip(0) =~= pv@);
        assert(pp@.skip(0) =~= pp@);
        assert(pairs_of(rb@, rp@) =~= Seq::<(usize, usize)>::empty());
    }
    while j < n_p
        invariant
            j <= n_p,
            n_p == vstd::math::min(pv@.len() as int, pp@.len() as int),
            rb@.len() == rp@.len(),
            forall|x: i32|
                #[trigger] group_of(groups_model(groups@), x)
                    == matching_positions(x, bv@, bp@),
            full == hash_join_pairs(bv@, bp@, pv@, pp@),
            full == pairs_of(rb@, rp@) + hash_join_pairs(
                bv@,
                bp@,
                pv@.skip(j as int),
                pp@.skip(j as int),
            ),
        decreases n_p - j,
    {
        let x = pv[j];
        let ppos = pp[j];
        let ghost m = groups_model(groups@);
        let ghost matched = matching_positions(x, bv@, bp@);
        let ghost done = pairs_of(rb@, rp@);
        proof {
            let vs = pv@.skip(j as int);
            let ps = pp@.skip(j as int);
            assert(vs[0] == x && ps[0] == ppos);
            assert(vs.drop_first() =~= pv@.skip(j as int + 1));
            assert(ps.drop_first() =~= pp@.skip(j as int + 1));
            lemma_row_pairs_as_matching(x, ppos, bv@, bp@);
            assert(swap_pairs(row_pairs(x, ppos, bv@, bp@)) =~= matched.map_values(
                |b: usize| (b, ppos),
            ));
            assert(hash_join_pairs(bv@, bp@, vs, ps) == swap_pairs(row_pairs(x, ppos, bv@, bp@))
                + hash_join_pairs(bv@, bp@, pv@.skip(j as int + 1), pp@.skip(j as int + 1)));
        }
        match find_group(&groups, x) {
            Some(g) => {
                proof {
                    lemma_group_of_lookup(m, x, g as int);
                    assert(groups@[g as int].1@ == matched);
                }
                let glen = groups[g].1.len();
                let mut k: usize = 0;
                while k < glen
                    invariant
                        k <= glen,
                        g < groups@.len(),
                        glen == groups@[g as int].1@.len(),
                        matched == groups@[g as int].1@,
                        rb@.len() == rp@.len(),
                        rb@.len() == done.len() + k,
                        pairs_of(rb@, rp@) == done + matched.take(k as int).map_values(
                            |b: usize| (b, ppos),
                        ),
                    decreases glen - k,
                {
                    let bpos = groups[g].1[k];
                    rb.push(bpos);
                    rp.push(ppos);
                    proof {
                        let old_pairs = pairs_of(rb@.drop_last(), rp@.drop_last());
                        assert(rb@.drop_last() =~= rb@.subrange(0, rb@.len() - 1));
                        assert(old_pairs =~= done + matched.take(k as int).map_values(
                            |b: usize| (b, ppos),
                        ));
                        assert(matched[k as int] == bpos);
                        assert(pairs_of(rb@, rp@) =~= old_pairs.push((bpos, ppos)));
                        assert(done + matched.take(k as int + 1).map_values(|b: usize| (b, ppos))
                            =~= old_pairs.push((bpos, ppos)));
                    }
                    k = k + 1;
                }
                proof {
                    assert(matched.take(matched.len() as int) =~= matched);
                    assert(pairs_of(rb@, rp@) =~= done + matched.map_values(|b: usize| (b, ppos)));
                }
            },
            None => {
                proof {
                    lemma_group_of_lookup(m, x, m.len() as int);
                    assert(matched =~= Seq::<usize>::empty());
                    assert(matched.map_values(|b: usize| (b, ppos)) =~= Seq::<
                        (usize, usize),
                    >::empty());
                    assert(pairs_of(rb@, rp@) =~= done + matched.map_values(|b: usize| (b, ppos)));
                }
            },
        }
        j = j + 1;
    }
    proof {
        assert(hash_join_pairs(bv@, bp@, pv@.skip(n_p as int), pp@.skip(n_p as int)) =~= Seq::<
            (usize, usize),
        >::empty());
        assert(pairs_of(rb@, rp@) =~= full);
    }
    (rb, rp)
}

} // verus!
