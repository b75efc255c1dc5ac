use vstd::prelude::*;

use crate::fp::{
    Fp, NEG_ONE_BITS, NEG_TWO_BITS, ONE_BITS, PI_BITS, TWO_BITS, TWO_PI_BITS, ZERO_BITS,
    HALF_BITS,
};
use crate::time::Transport;
use crate::ugen::{
    edge_ok, NumLit, UGen, same_shape, spec_edges, spec_is_leaf, spec_rank, wf, wf_node, zero_signal, Graph,
    Signal, UG, ADSR, lemma_edge_rank, lemma_same_shape_wf, lemma_same_shape_trans,
    lemma_shape_eq_edges, spec_shape_eq, spec_zero_signal,
};

verus! {

/// Whether node `j`'s memo is valid for the given tick.
pub open spec fn ticked(g: Graph, j: int, tick: u64) -> bool {
    g.nodes[j].last_tick == tick
}

/// All parameter edges of node `j` lead to nodes whose memo is valid
/// for the tick.
pub open spec fn ticked_closed(g: Graph, j: int, tick: u64) -> bool {
    forall|k: int|
        0 <= k < spec_edges(g.nodes[j].ug).len() ==> ticked(
            g,
            #[trigger] spec_edges(g.nodes[j].ug)[k] as int,
            tick,
        )
}

/// Whether evaluation at the tick starting at node `i` reaches node
/// `j`: either they are equal, or `i`'s memo is stale and an edge of
/// `i` actively reaches `j`.  Evaluation stops at nodes whose memo is
/// already valid, so those nodes' descendants are not re-entered.
pub open spec fn active_reach(g: Graph, tick: u64, i: int, j: int) -> bool
    decreases spec_rank(g, i),
{
    i == j || (0 <= i < g.nodes.len() && !spec_is_leaf(g.nodes[i].ug) && !ticked(g, i, tick)
        && exists|k: int|
        0 <= k < spec_edges(g.nodes[i].ug).len() && edge_ok(
            g,
            i,
            #[trigger] spec_edges(g.nodes[i].ug)[k],
        ) && active_reach(g, tick, spec_edges(g.nodes[i].ug)[k] as int, j))
}

/// Evaluation never leaves the reachable subgraph: whatever it
/// actively reaches along stale memos is plainly reachable, so the
/// frame of `proc` covers everything its coverage clause speaks of.
pub proof fn lemma_active_is_reach(g: Graph, tick: u64, i: int, j: int)
    requires
        active_reach(g, tick, i, j),
    ensures
        crate::walk::reach(g, i, j),
    decreases spec_rank(g, i),
{
    if i != j {
        let k = choose|k: int|
            0 <= k < spec_edges(g.nodes[i].ug).len() && edge_ok(
                g,
                i,
                #[trigger] spec_edges(g.nodes[i].ug)[k],
            ) && active_reach(g, tick, spec_edges(g.nodes[i].ug)[k] as int, j);
        lemma_active_is_reach(g, tick, spec_edges(g.nodes[i].ug)[k] as int, j);
    }
}

/// A node reaches each of its parameter edges.
pub proof fn lemma_reach_step(g: Graph, i: int, k: int)
    requires
        wf(g),
        0 <= i < g.nodes.len(),
        0 <= k < spec_edges(g.nodes[i].ug).len(),
    ensures
        crate::walk::reach(g, i, spec_edges(g.nodes[i].ug)[k] as int),
{
    assert(wf_node(g, i));
    let e = spec_edges(g.nodes[i].ug)[k] as int;
    assert(edge_ok(g, i, spec_edges(g.nodes[i].ug)[k]));
    assert(crate::walk::reach(g, e, e));
    assert(!spec_is_leaf(g.nodes[i].ug));
}

/// Reachability is transitive.
pub proof fn lemma_reach_trans(g: Graph, i: int, m: int, j: int)
    requires
        wf(g),
        crate::walk::reach(g, i, m),
        crate::walk::reach(g, m, j),
    ensures
        crate::walk::reach(g, i, j),
    decreases spec_rank(g, i),
{
    if i != m {
        let k = choose|k: int|
            0 <= k < spec_edges(g.nodes[i].ug).len() && edge_ok(
                g,
                i,
                #[trigger] spec_edges(g.nodes[i].ug)[k],
            ) && crate::walk::reach(g, spec_edges(g.nodes[i].ug)[k] as int, m);
        lemma_reach_trans(g, spec_edges(g.nodes[i].ug)[k] as int, m, j);
    }
}

/// Reaching a different node strictly lowers the rank, so no node
/// reaches itself through an edge.
pub proof fn lemma_reach_rank(g: Graph, i: int, j: int)
    requires
        wf(g),
        0 <= i < g.nodes.len(),
        crate::walk::reach(g, i, j),
    ensures
        i == j || spec_rank(g, j) < spec_rank(g, i),
    decreases spec_rank(g, i),
{
    if i != j {
        let k = choose|k: int|
            0 <= k < spec_edges(g.nodes[i].ug).len() && edge_ok(
                g,
                i,
                #[trigger] spec_edges(g.nodes[i].ug)[k],
            ) && crate::walk::reach(g, spec_edges(g.nodes[i].ug)[k] as int, j);
        let e = spec_edges(g.nodes[i].ug)[k] as int;
        assert(0 <= e < g.nodes.len());
        lemma_reach_rank(g, e, j);
    }
}

/// Graphs of the same shape agree on reachability.
pub proof fn lemma_same_shape_reach(g1: Graph, g2: Graph, i: int, j: int)
    requires
        wf(g1),
        same_shape(g1, g2),
    ensures
        crate::walk::reach(g1, i, j) == crate::walk::reach(g2, i, j),
    decreases spec_rank(g1, i) + spec_rank(g2, i) + 1,
{
    lemma_same_shape_wf(g1, g2);
    if 0 <= i < g1.nodes.len() {
        assert(spec_shape_eq(g1.nodes[i].ug, g2.nodes[i].ug));
        lemma_shape_eq_edges(g1.nodes[i].ug, g2.nodes[i].ug);
        if crate::walk::reach(g1, i, j) && i != j {
            let k = choose|k: int|
                0 <= k < spec_edges(g1.nodes[i].ug).len() && edge_ok(
                    g1,
                    i,
                    #[trigger] spec_edges(g1.nodes[i].ug)[k],
                ) && crate::walk::reach(g1, spec_edges(g1.nodes[i].ug)[k] as int, j);
            let e = spec_edges(g1.nodes[i].ug)[k];
            lemma_same_shape_reach(g1, g2, e as int, j);
            assert(wf_node(g2, i));
            assert(edge_ok(g2, i, e));
            assert(crate::walk::reach(g2, i, j));
        }
        if crate::walk::reach(g2, i, j) && i != j {
            let k = choose|k: int|
                0 <= k < spec_edges(g2.nodes[i].ug).len() && edge_ok(
                    g2,
                    i,
                    #[trigger] spec_edges(g2.nodes[i].ug)[k],
                ) && crate::walk::reach(g2, spec_edges(g2.nodes[i].ug)[k] as int, j);
            let e = spec_edges(g2.nodes[i].ug)[k];
            lemma_same_shape_reach(g1, g2, e as int, j);
            assert(wf_node(g1, i));
            assert(edge_ok(g1, i, e));
            assert(crate::walk::reach(g1, i, j));
        }
    }
}

/// Memos that were valid stay valid, with the same cached output.
pub open spec fn memo_persist(a: Graph, b: Graph, tick: u64) -> bool {
    forall|j: int|
        0 <= j < a.nodes.len() && #[trigger] ticked(a, j, tick) ==> ticked(b, j, tick)
            && b.nodes[j].last_sig == a.nodes[j].last_sig
}

/// Every node whose memo became valid, other than `ex`, has all its
/// edges valid too.
pub open spec fn new_ticks_closed_except(a: Graph, b: Graph, tick: u64, ex: int) -> bool {
    forall|j: int|
        0 <= j < a.nodes.len() && j != ex && !ticked(a, j, tick) && #[trigger] ticked(b, j, tick)
            ==> ticked_closed(b, j, tick)
}

/// Every node whose memo became valid has all its edges valid too.
pub open spec fn new_ticks_closed(a: Graph, b: Graph, tick: u64) -> bool {
    forall|j: int|
        0 <= j < a.nodes.len() && !ticked(a, j, tick) && #[trigger] ticked(b, j, tick)
            ==> ticked_closed(b, j, tick)
}

/// If the memos that became valid are closed over edges, every node
/// evaluation actively reaches is valid in the end state.
pub proof fn lemma_active_covered(g0: Graph, g1: Graph, i: int, j: int, tick: u64)
    requires
        wf(g0),
        same_shape(g0, g1),
        0 <= i < g0.nodes.len(),
        ticked(g1, i, tick),
        new_ticks_closed(g0, g1, tick),
        active_reach(g0, tick, i, j),
    ensures
        0 <= j < g0.nodes.len() ==> ticked(g1, j, tick),
        i == j || 0 <= j < g0.nodes.len(),
    decreases spec_rank(g0, i),
{
    if i != j {
        let k = choose|k: int|
            0 <= k < spec_edges(g0.nodes[i].ug).len() && edge_ok(
                g0,
                i,
                #[trigger] spec_edges(g0.nodes[i].ug)[k],
            ) && active_reach(g0, tick, spec_edges(g0.nodes[i].ug)[k] as int, j);
        let e = spec_edges(g0.nodes[i].ug)[k];
        assert(!ticked(g0, i, tick));
        assert(ticked_closed(g1, i, tick));
        assert(spec_shape_eq(g0.nodes[i].ug, g1.nodes[i].ug));
        lemma_shape_eq_edges(g0.nodes[i].ug, g1.nodes[i].ug);
        assert(ticked(g1, e as int, tick));
        lemma_active_covered(g0, g1, e as int, j, tick);
    }
}

/// The bookkeeping for one child evaluation inside `proc`: given the
/// accumulated relation of the entry state `g0` to the state `s1`
/// before the child call, and the callee's guarantees from `s1` to
/// `s2`, the accumulated relation holds of `s2`.
#[verifier::rlimit(60)]
#[verifier::spinoff_prover]
pub proof fn lemma_child_step(g0: Graph, s1: Graph, s2: Graph, id: int, kk: int, tick: u64)
    requires
        wf(g0),
        0 <= id < g0.nodes.len(),
        0 <= kk < spec_edges(g0.nodes[id].ug).len(),
        // accumulated, entry to s1
        same_shape(g0, s1),
        wf(s1),
        memo_persist(g0, s1, tick),
        new_ticks_closed_except(g0, s1, tick, id),
        forall|j: int|
            0 <= j < g0.nodes.len() && !crate::walk::reach(g0, id, j) ==> s1.nodes[j]
                == #[trigger] g0.nodes[j],
        caches_ok_except(g0, s1, tick, id),
        eg_classes_ok_except(g0, s1, id, id),
        forall|j: int|
            0 <= j < g0.nodes.len() && j != id ==> #[trigger] spec_eg_step_under(g0, s1, id, j),
        // the callee, s1 to s2, called on the edge
        same_shape(s1, s2),
        wf(s2),
        memo_persist(s1, s2, tick),
        new_ticks_closed(s1, s2, tick),
        forall|j: int|
            0 <= j < s1.nodes.len() ==> #[trigger] spec_eg_step_ok(
                s1,
                s2,
                spec_edges(g0.nodes[id].ug)[kk] as int,
                j,
            ),
        caches_ok(s1, s2, tick),
        ticked(s2, spec_edges(g0.nodes[id].ug)[kk] as int, tick),
        forall|j: int|
            0 <= j < s1.nodes.len() && !crate::walk::reach(
                s1,
                spec_edges(g0.nodes[id].ug)[kk] as int,
                j,
            ) ==> s2.nodes[j] == #[trigger] s1.nodes[j],
    ensures
        same_shape(g0, s2),
        wf(s2),
        memo_persist(g0, s2, tick),
        new_ticks_closed_except(g0, s2, tick, id),
        caches_ok_except(g0, s2, tick, id),
        eg_classes_ok_except(g0, s2, id, id),
        forall|j: int|
            0 <= j < g0.nodes.len() && j != id ==> #[trigger] spec_eg_step_under(g0, s2, id, j),
        ticked(s2, spec_edges(g0.nodes[id].ug)[kk] as int, tick),
        forall|j: int|
            0 <= j < g0.nodes.len() && !crate::walk::reach(g0, id, j) ==> s2.nodes[j]
                == #[trigger] g0.nodes[j],
{
    // envelope classes: compose the two legs, moving the callee's
    // witness under the evaluated edge
    assert forall|j: int|
        0 <= j < g0.nodes.len() && j != id implies #[trigger] spec_eg_step_under(
        g0,
        s2,
        id,
        j,
    ) && spec_eg_step_ok(g0, s2, id, j) by {
        if g0.nodes[j].ug matches UG::Adsr { .. } {
            assert(spec_eg_step_under(g0, s1, id, j));
            assert(spec_eg_step_ok(s1, s2, spec_edges(g0.nodes[id].ug)[kk] as int, j));
            assert(spec_shape_eq(g0.nodes[j].ug, s1.nodes[j].ug));
            if spec_eg_active(s2.nodes[j].ug) != spec_eg_active(g0.nodes[j].ug) {
                if spec_eg_active(s2.nodes[j].ug) == spec_eg_active(s1.nodes[j].ug) {
                    // forced during an earlier sibling: keep its witness
                    assert(spec_eg_active(s1.nodes[j].ug) != spec_eg_active(g0.nodes[j].ug));
                    assert(!spec_eg_active(s1.nodes[j].ug));
                    let (w, kk2) = choose|w: int, kk2: int|
                        0 <= w < g0.nodes.len() && 0 <= kk2 < spec_edges(g0.nodes[id].ug).len()
                            && spec_oneshot_holding(#[trigger] g0.nodes[w].ug, j)
                            && #[trigger] crate::walk::reach(
                            g0,
                            spec_edges(g0.nodes[id].ug)[kk2] as int,
                            w,
                        );
                    lemma_reach_step(g0, id, kk2);
                    lemma_reach_trans(g0, id, spec_edges(g0.nodes[id].ug)[kk2] as int, w);
                    assert(crate::walk::reach(g0, id, w));
                } else {
                    // forced in the callee: translate its witness
                    assert(!spec_eg_active(s2.nodes[j].ug));
                    let w = choose|w: int|
                        0 <= w < s1.nodes.len() && spec_oneshot_holding(s1.nodes[w].ug, j)
                            && #[trigger] crate::walk::reach(
                            s1,
                            spec_edges(g0.nodes[id].ug)[kk] as int,
                            w,
                        );
                    assert(spec_shape_eq(g0.nodes[w].ug, s1.nodes[w].ug));
                    assert(spec_oneshot_holding(g0.nodes[w].ug, j));
                    lemma_same_shape_reach(g0, s1, spec_edges(g0.nodes[id].ug)[kk] as int, w);
                    assert(crate::walk::reach(
                        g0,
                        spec_edges(g0.nodes[id].ug)[kk] as int,
                        w,
                    ));
                    lemma_reach_step(g0, id, kk);
                    lemma_reach_trans(g0, id, spec_edges(g0.nodes[id].ug)[kk] as int, w);
                }
            }
        }
    }
    assert forall|j: int|
        0 <= j < g0.nodes.len() && j != id implies #[trigger] spec_eg_step_ok(g0, s2, id, j) by {
        assert(spec_eg_step_under(g0, s2, id, j) && spec_eg_step_ok(g0, s2, id, j));
    }
    assert forall|j: int|
        0 <= j < g0.nodes.len() && j != id && !ticked(g0, j, tick) && #[trigger] ticked(
        s2,
        j,
        tick,
    ) implies spec_cache_post(g0.nodes[j].ug, s2.nodes[j]) by {
        if ticked(s1, j, tick) {
            assert(spec_cache_post(g0.nodes[j].ug, s1.nodes[j]));
            assert(memo_persist(s1, s2, tick));
            assert(s2.nodes[j].last_sig == s1.nodes[j].last_sig);
        } else {
            assert(spec_cache_post(s1.nodes[j].ug, s2.nodes[j]));
            assert(spec_shape_eq(g0.nodes[j].ug, s1.nodes[j].ug));
        }
    }
    let c = spec_edges(g0.nodes[id].ug)[kk];
    crate::ugen::lemma_same_shape_trans(g0, s1, s2);
    // memo persistence composes
    assert forall|j: int|
        0 <= j < g0.nodes.len() && #[trigger] ticked(g0, j, tick) implies ticked(s2, j, tick)
        && s2.nodes[j].last_sig == g0.nodes[j].last_sig by {
        assert(ticked(s1, j, tick) && s1.nodes[j].last_sig == g0.nodes[j].last_sig);
        assert(ticked(s2, j, tick) && s2.nodes[j].last_sig == s1.nodes[j].last_sig);
    }
    // closedness composes
    assert forall|j: int|
        0 <= j < g0.nodes.len() && j != id && !ticked(g0, j, tick) && #[trigger] ticked(
        s2,
        j,
        tick,
    ) implies ticked_closed(s2, j, tick) by {
        if ticked(s1, j, tick) {
            assert(ticked_closed(s1, j, tick));
            assert(spec_shape_eq(s1.nodes[j].ug, s2.nodes[j].ug));
            lemma_shape_eq_edges(s1.nodes[j].ug, s2.nodes[j].ug);
            assert forall|k: int|
                0 <= k < spec_edges(s2.nodes[j].ug).len() implies ticked(
                s2,
                #[trigger] spec_edges(s2.nodes[j].ug)[k] as int,
                tick,
            ) by {
                let e = spec_edges(s1.nodes[j].ug)[k] as int;
                assert(ticked(s1, e, tick));
                assert(wf_node(s1, j));
                assert(edge_ok(s1, j, spec_edges(s1.nodes[j].ug)[k]));
                assert(memo_persist(s1, s2, tick));
            }
        }
    }
    // frame composes
    assert forall|j: int|
        0 <= j < g0.nodes.len() && !crate::walk::reach(g0, id, j) implies s2.nodes[j]
        == #[trigger] g0.nodes[j] by {
        assert(s1.nodes[j] == g0.nodes[j]);
        lemma_reach_step(g0, id, kk);
        if crate::walk::reach(s1, c as int, j) {
            lemma_same_shape_reach(g0, s1, c as int, j);
            lemma_reach_trans(g0, id, c as int, j);
            assert(false);
        }
        assert(s2.nodes[j] == s1.nodes[j]);
    }
}

impl Graph {
    /// The parameter edges of node `id`, in declaration order.
    pub fn children_of(&self, id: usize) -> (r: Vec<usize>)
        requires
            id < self.nodes.len(),
        ensures
            r@ == spec_edges(self.nodes[id as int].ug),
    {
        match &self.nodes[id].ug {
            UG::Val(_) => vec![],
            UG::Sine { init_ph, freq, .. } => vec![*init_ph, *freq],
            UG::Tri { init_ph, freq, .. } => vec![*init_ph, *freq],
            UG::Saw { init_ph, freq, .. } => vec![*init_ph, *freq],
            UG::Pulse { init_ph, freq, duty, .. } => vec![*init_ph, *freq, *duty],
            UG::Rand { freq, .. } => vec![*freq],
            UG::Phase { osc } => vec![*osc],
            UG::WaveTable { table, ph } => vec![*table, *ph],
            UG::OneshotOsc { osc, eg } => vec![*osc, *eg],
            UG::Adsr { a, d, s, r, .. } => vec![*a, *d, *s, *r],
            UG::Lpf { freq, q, src, .. } => vec![*freq, *q, *src],
            UG::Delay { time, feedback, mix, src, .. } => vec![*time, *feedback, *mix, *src],
            UG::Mix { sources } => {
                let mut v: Vec<usize> = Vec::new();
                let mut k: usize = 0;
                while k < sources.len()
                    invariant
                        k <= sources@.len(),
                        v@ == sources@.subrange(0, k as int),
                    decreases sources@.len() - k,
                {
                    v.push(sources[k]);
                    proof {
                        assert(v@ =~= sources@.subrange(0, k + 1));
                    }
                    k = k + 1;
                }
                proof {
                    assert(sources@.subrange(0, sources@.len() as int) =~= sources@);
                }
                v
            },
            UG::Tab(_) => vec![],
            UG::Pat(_) => vec![],
        }
    }
}


/// Whether an envelope node would let a one-shot gate sound through:
/// an envelope generator in its attack, decay or sustain state.
pub open spec fn spec_eg_active(u: UG) -> bool {
    match u {
        UG::Adsr { state, .. } => state == ADSR::Attack || state == ADSR::Decay || state
            == ADSR::Sustin,
        _ => false,
    }
}

/// Whether `u` is a one-shot holding node `j` as its envelope.
pub open spec fn spec_oneshot_holding(u: UG, j: int) -> bool {
    match u {
        UG::OneshotOsc { eg, .. } => eg as int == j,
        _ => false,
    }
}

/// How the activity class of envelope `j` may evolve during an
/// evaluation rooted at `root`: it is preserved — the envelope's own
/// per-tick step never crosses the class boundary — unless some
/// one-shot holding this envelope, reachable from the root, forced it
/// off.
pub open spec fn spec_eg_step_ok(g0: Graph, s: Graph, root: int, j: int) -> bool {
    match g0.nodes[j].ug {
        UG::Adsr { .. } => (spec_eg_active(s.nodes[j].ug) == spec_eg_active(g0.nodes[j].ug)) || (
        !spec_eg_active(s.nodes[j].ug) && exists|w: int|
            0 <= w < g0.nodes.len() && spec_oneshot_holding(g0.nodes[w].ug, j)
                && #[trigger] crate::walk::reach(g0, root, w)),
        _ => true,
    }
}

/// What a fresh memo must hold for a node, stated over the entry
/// variant and the cached sample alone: constants cache their literal
/// on both channels, tables and patterns cache silence, the mono
/// producers cache equal channels, and a pulse caches one of its two
/// levels.
pub open spec fn spec_cache_post(u0: UG, n: UGen) -> bool {
    match u0 {
        UG::Val(lit) => n.last_sig == (Signal { l: lit.bits, r: lit.bits }),
        UG::Tab(_) => n.last_sig == spec_zero_signal(),
        UG::Pat(_) => n.last_sig == spec_zero_signal(),
        UG::Sine { .. } => n.last_sig.l == n.last_sig.r,
        UG::Tri { .. } => n.last_sig.l == n.last_sig.r,
        UG::Saw { .. } => n.last_sig.l == n.last_sig.r,
        UG::Pulse { .. } => n.last_sig.l == n.last_sig.r && (n.last_sig.l == ONE_BITS
            || n.last_sig.l == NEG_ONE_BITS),
        UG::Rand { .. } => n.last_sig.l == n.last_sig.r,
        UG::WaveTable { .. } => n.last_sig.l == n.last_sig.r,
        UG::OneshotOsc { .. } => n.last_sig.l == n.last_sig.r,
        UG::Adsr { .. } => n.last_sig.l == n.last_sig.r,
        _ => true,
    }
}

/// Every memo that became valid caches a per-variant-sound sample.
pub open spec fn caches_ok(a: Graph, b: Graph, tick: u64) -> bool {
    forall|j: int|
        0 <= j < a.nodes.len() && !ticked(a, j, tick) && #[trigger] ticked(b, j, tick)
            ==> spec_cache_post(a.nodes[j].ug, b.nodes[j])
}

/// The same, for every node but the one under evaluation.
pub open spec fn caches_ok_except(a: Graph, b: Graph, tick: u64, ex: int) -> bool {
    forall|j: int|
        0 <= j < a.nodes.len() && j != ex && !ticked(a, j, tick) && #[trigger] ticked(b, j, tick)
            ==> spec_cache_post(a.nodes[j].ug, b.nodes[j])
}

/// Class evolution for every envelope but the node under evaluation.
pub open spec fn eg_classes_ok_except(g0: Graph, s: Graph, root: int, ex: int) -> bool {
    forall|j: int| 0 <= j < g0.nodes.len() && j != ex ==> #[trigger] spec_eg_step_ok(g0, s, root, j)
}

/// Class evolution with the forcing one-shot pinned under one of the
/// evaluated node's own edges: while a node's children are being
/// evaluated, its own gate has not yet fired, so any forcing must come
/// from a one-shot inside a child subtree.
pub open spec fn spec_eg_step_under(g0: Graph, s: Graph, id: int, j: int) -> bool {
    match g0.nodes[j].ug {
        UG::Adsr { .. } => (spec_eg_active(s.nodes[j].ug) == spec_eg_active(g0.nodes[j].ug)) || (
        !spec_eg_active(s.nodes[j].ug) && exists|w: int, kk: int|
            0 <= w < g0.nodes.len() && 0 <= kk < spec_edges(g0.nodes[id].ug).len()
                && spec_oneshot_holding(#[trigger] g0.nodes[w].ug, j) && #[trigger] crate::walk::reach(
                g0,
                spec_edges(g0.nodes[id].ug)[kk] as int,
                w,
            )),
        _ => true,
    }
}

/// Whether a variant counts as an oscillator for the one-shot's gate.
pub open spec fn spec_osc_kind(u: UG) -> bool {
    match u {
        UG::Sine { .. } => true,
        UG::Tri { .. } => true,
        UG::Saw { .. } => true,
        UG::Pulse { .. } => true,
        UG::Rand { .. } => true,
        UG::Phase { .. } => true,
        UG::WaveTable { .. } => true,
        UG::OneshotOsc { .. } => true,
        _ => false,
    }
}

/// No one-shot holding envelope `egj` sits under any edge of `id`, so
/// nothing can force that envelope off while `id`'s children are being
/// evaluated.
pub open spec fn spec_no_eg_interference(g: Graph, id: int, egj: int) -> bool {
    forall|w: int, kk: int|
        0 <= w < g.nodes.len() && 0 <= kk < spec_edges(g.nodes[id].ug).len()
            && spec_oneshot_holding(#[trigger] g.nodes[w].ug, egj) ==> !(#[trigger] crate::walk::reach(
            g,
            spec_edges(g.nodes[id].ug)[kk] as int,
            w,
        ))
}

/// A gated-off one-shot: silence, the envelope forced off with its
/// timer cleared, and the oscillator chain's phase accumulator zeroed.
pub open spec fn spec_oneshot_off(g0: Graph, gf: Graph, osc: usize, eg: usize, sig: Signal) -> bool {
    &&& sig == spec_zero_signal()
    &&& (match g0.nodes[eg as int].ug {
        UG::Adsr { a, d, s, r, .. } => gf.nodes[eg as int].ug == (UG::Adsr {
            a,
            d,
            s,
            r,
            state: ADSR::Off,
            eplaced: 0,
        }),
        _ => true,
    })
    &&& (match spec_ph_target(gf, osc as int) {
        Some(pt) => spec_ph_field(gf.nodes[pt].ug) == ZERO_BITS,
        None => true,
    })
}

/// The accumulated relation `proc` maintains between its entry state
/// and the current state while node `id` is being evaluated: shapes
/// and valid memos are preserved, new memos (except `id`'s own, still
/// in progress) are closed over edges, and nothing unreachable from
/// `id` is touched.
pub open spec fn eval_mid(g0: Graph, s: Graph, id: int, tick: u64) -> bool {
    &&& wf(s)
    &&& same_shape(g0, s)
    &&& memo_persist(g0, s, tick)
    &&& new_ticks_closed_except(g0, s, tick, id)
    &&& caches_ok_except(g0, s, tick, id)
    &&& eg_classes_ok_except(g0, s, id, id)
    &&& forall|j: int|
        0 <= j < g0.nodes.len() && !crate::walk::reach(g0, id, j) ==> s.nodes[j] == #[trigger] g0.nodes[j]
    &&& !ticked(g0, id, tick)
    &&& ticked(s, id, tick)
}

/// All edges of node `id` (as shaped in `g0`) carry valid memos in `s`.
pub open spec fn kids_ticked(g0: Graph, s: Graph, id: int, tick: u64) -> bool {
    forall|i: int|
        0 <= i < spec_edges(g0.nodes[id].ug).len() ==> ticked(
            s,
            #[trigger] spec_edges(g0.nodes[id].ug)[i] as int,
            tick,
        )
}

/// A leaf has no edges.
pub proof fn lemma_leaf_no_edges(u: UG)
    ensures
        spec_is_leaf(u) ==> spec_edges(u).len() == 0,
{
}

/// A mutation that keeps every shape, memo tick and cached output, and
/// touches only nodes reachable from edge `kk` of `id`, preserves the
/// evaluation relation.
pub proof fn lemma_eval_mid_state_change(
    g0: Graph,
    s1: Graph,
    s2: Graph,
    id: int,
    kk: int,
    tick: u64,
)
    requires
        wf(g0),
        0 <= id < g0.nodes.len(),
        eval_mid(g0, s1, id, tick),
        same_shape(s1, s2),
        wf(s2),
        forall|j: int|
            0 <= j < s1.nodes.len() ==> #[trigger] s2.nodes[j].last_tick == s1.nodes[j].last_tick
                && s2.nodes[j].last_sig == s1.nodes[j].last_sig,
        0 <= kk < spec_edges(g0.nodes[id].ug).len(),
        forall|j: int|
            0 <= j < s1.nodes.len() && !crate::walk::reach(
                s1,
                spec_edges(g0.nodes[id].ug)[kk] as int,
                j,
            ) ==> s2.nodes[j] == #[trigger] s1.nodes[j],
        forall|j: int|
            0 <= j < s1.nodes.len() ==> ((#[trigger] spec_eg_active(s2.nodes[j].ug))
                == spec_eg_active(s1.nodes[j].ug) || (!spec_eg_active(s2.nodes[j].ug)
                && spec_oneshot_holding(g0.nodes[id].ug, j))),
    ensures
        eval_mid(g0, s2, id, tick),
{
    assert forall|j: int|
        0 <= j < g0.nodes.len() && j != id implies #[trigger] spec_eg_step_ok(
        g0,
        s2,
        id,
        j,
    ) by {
        assert(spec_eg_step_ok(g0, s1, id, j));
        if g0.nodes[j].ug matches UG::Adsr { .. } {
            if spec_eg_active(s2.nodes[j].ug) != spec_eg_active(g0.nodes[j].ug) {
                if spec_eg_active(s2.nodes[j].ug) == spec_eg_active(s1.nodes[j].ug) {
                    // the earlier forcing's witness still serves
                    assert(!spec_eg_active(s1.nodes[j].ug));
                } else {
                    // this mutation forced it off: the evaluated node
                    // is the one-shot holding it
                    assert(spec_oneshot_holding(g0.nodes[id].ug, j));
                    assert(crate::walk::reach(g0, id, id));
                }
            }
        }
    }
    let c = spec_edges(g0.nodes[id].ug)[kk];
    lemma_same_shape_trans(g0, s1, s2);
    assert forall|j: int|
        0 <= j < g0.nodes.len() && #[trigger] ticked(g0, j, tick) implies ticked(s2, j, tick)
        && s2.nodes[j].last_sig == g0.nodes[j].last_sig by {
        assert(ticked(s1, j, tick) && s1.nodes[j].last_sig == g0.nodes[j].last_sig);
    }
    assert forall|j: int|
        0 <= j < g0.nodes.len() && j != id && !ticked(g0, j, tick) && #[trigger] ticked(
        s2,
        j,
        tick,
    ) implies spec_cache_post(g0.nodes[j].ug, s2.nodes[j]) by {
        assert(s2.nodes[j].last_tick == s1.nodes[j].last_tick && s2.nodes[j].last_sig
            == s1.nodes[j].last_sig);
        assert(ticked(s1, j, tick));
        assert(spec_cache_post(g0.nodes[j].ug, s1.nodes[j]));
    }
    assert forall|j: int|
        0 <= j < g0.nodes.len() && j != id && !ticked(g0, j, tick) && #[trigger] ticked(
        s2,
        j,
        tick,
    ) implies ticked_closed(s2, j, tick) by {
        assert(ticked(s1, j, tick));
        assert(ticked_closed(s1, j, tick));
        assert(spec_shape_eq(s1.nodes[j].ug, s2.nodes[j].ug));
        lemma_shape_eq_edges(s1.nodes[j].ug, s2.nodes[j].ug);
        assert forall|k: int|
            0 <= k < spec_edges(s2.nodes[j].ug).len() implies ticked(
            s2,
            #[trigger] spec_edges(s2.nodes[j].ug)[k] as int,
            tick,
        ) by {
            let e = spec_edges(s1.nodes[j].ug)[k] as int;
            assert(ticked(s1, e, tick));
            assert(wf_node(s1, j));
            assert(edge_ok(s1, j, spec_edges(s1.nodes[j].ug)[k]));
        }
    }
    assert forall|j: int|
        0 <= j < g0.nodes.len() && !crate::walk::reach(g0, id, j) implies s2.nodes[j]
        == #[trigger] g0.nodes[j] by {
        assert(s1.nodes[j] == g0.nodes[j]);
        lemma_reach_step(g0, id, kk);
        if crate::walk::reach(s1, c as int, j) {
            lemma_same_shape_reach(g0, s1, c as int, j);
            lemma_reach_trans(g0, id, c as int, j);
            assert(false);
        }
    }
}

impl Graph {
    /// Replace the variant payload of `id` with one of the same shape,
    /// leaving its memo untouched.
    fn set_node_ug(&mut self, id: usize, new_ug: UG, Ghost(g0): Ghost<Graph>, Ghost(tick): Ghost<
        u64,
    >)
        requires
            wf(g0),
            (id as int) < g0.nodes.len(),
            eval_mid(g0, *old(self), id as int, tick),
            kids_ticked(g0, *old(self), id as int, tick),
            spec_shape_eq(old(self).nodes[id as int].ug, new_ug),
        ensures
            kids_ticked(g0, *final(self), id as int, tick),
            eval_mid(g0, *final(self), id as int, tick),
            final(self).nodes.len() == old(self).nodes.len(),
            forall|j: int|
                0 <= j < old(self).nodes.len() ==> #[trigger] final(self).nodes[j].last_tick
                    == old(self).nodes[j].last_tick,
            final(self).nodes[id as int].ug == new_ug,
            final(self).nodes[id as int].last_tick == old(self).nodes[id as int].last_tick,
            final(self).nodes[id as int].last_sig == old(self).nodes[id as int].last_sig,
            final(self).nodes[id as int].id == old(self).nodes[id as int].id,
            forall|j: int|
                0 <= j < old(self).nodes.len() && j != id ==> final(self).nodes[j] == #[trigger] old(
                    self,
                ).nodes[j],
    {
        let ghost s1 = *self;
        self.nodes[id].ug = new_ug;
        proof {
            assert(same_shape(s1, *self)) by {
                assert forall|i: int|
                    0 <= i < s1.nodes.len() implies #[trigger] spec_shape_eq(
                    s1.nodes[i].ug,
                    self.nodes[i].ug,
                ) by {
                    if i != id {
                        assert(self.nodes[i] == s1.nodes[i]);
                    }
                }
            }
            lemma_same_shape_trans(g0, s1, *self);
            lemma_same_shape_wf(g0, *self);
            assert forall|j: int|
                0 <= j < g0.nodes.len() && j != id && !ticked(g0, j, tick) && #[trigger] ticked(
                *self,
                j,
                tick,
            ) implies ticked_closed(*self, j, tick) by {
                assert(self.nodes[j] == s1.nodes[j]);
                assert(ticked(s1, j, tick));
                assert(ticked_closed(s1, j, tick));
                assert forall|k: int|
                    0 <= k < spec_edges(self.nodes[j].ug).len() implies ticked(
                    *self,
                    #[trigger] spec_edges(self.nodes[j].ug)[k] as int,
                    tick,
                ) by {
                    let e = spec_edges(s1.nodes[j].ug)[k] as int;
                    assert(ticked(s1, e, tick));
                    assert(wf_node(s1, j));
                    assert(edge_ok(s1, j, spec_edges(s1.nodes[j].ug)[k]));
                    if e != id {
                        assert(self.nodes[e] == s1.nodes[e]);
                    }
                }
            }
            assert forall|j: int|
                0 <= j < g0.nodes.len() && j != id implies #[trigger] spec_eg_step_ok(
                g0,
                *self,
                id as int,
                j,
            ) by {
                assert(self.nodes[j] == s1.nodes[j]);
                assert(spec_eg_step_ok(g0, s1, id as int, j));
            }
            assert forall|j: int|
                0 <= j < g0.nodes.len() && j != id && !ticked(g0, j, tick) && #[trigger] ticked(
                *self,
                j,
                tick,
            ) implies spec_cache_post(g0.nodes[j].ug, self.nodes[j]) by {
                assert(self.nodes[j] == s1.nodes[j]);
                assert(ticked(s1, j, tick));
            }
            assert(eval_mid(g0, *self, id as int, tick));
            assert forall|i2: int|
                0 <= i2 < spec_edges(g0.nodes[id as int].ug).len() implies ticked(
                *self,
                #[trigger] spec_edges(g0.nodes[id as int].ug)[i2] as int,
                tick,
            ) by {
                assert(wf_node(g0, id as int));
                assert(edge_ok(g0, id as int, spec_edges(g0.nodes[id as int].ug)[i2]));
                assert(ticked(s1, spec_edges(g0.nodes[id as int].ug)[i2] as int, tick));
            }
        }
    }

    /// Store the output of node `id` for this tick.
    fn store_sig(&mut self, id: usize, sig: Signal, Ghost(g0): Ghost<Graph>, Ghost(tick): Ghost<
        u64,
    >)
        requires
            wf(g0),
            (id as int) < g0.nodes.len(),
            eval_mid(g0, *old(self), id as int, tick),
            kids_ticked(g0, *old(self), id as int, tick),
        ensures
            kids_ticked(g0, *final(self), id as int, tick),
            eval_mid(g0, *final(self), id as int, tick),
            final(self).nodes.len() == old(self).nodes.len(),
            forall|j: int|
                0 <= j < old(self).nodes.len() ==> #[trigger] final(self).nodes[j].last_tick
                    == old(self).nodes[j].last_tick,
            final(self).nodes[id as int].ug == old(self).nodes[id as int].ug,
            final(self).nodes[id as int].last_tick == old(self).nodes[id as int].last_tick,
            final(self).nodes[id as int].last_sig == sig,
            final(self).nodes[id as int].id == old(self).nodes[id as int].id,
            forall|j: int|
                0 <= j < old(self).nodes.len() && j != id ==> final(self).nodes[j] == #[trigger] old(
                    self,
                ).nodes[j],
    {
        let ghost s1 = *self;
        self.nodes[id].last_sig = sig;
        proof {
            assert(same_shape(s1, *self)) by {
                assert forall|i: int|
                    0 <= i < s1.nodes.len() implies #[trigger] spec_shape_eq(
                    s1.nodes[i].ug,
                    self.nodes[i].ug,
                ) by {
                    if i != id {
                        assert(self.nodes[i] == s1.nodes[i]);
                    }
                }
            }
            lemma_same_shape_trans(g0, s1, *self);
            lemma_same_shape_wf(g0, *self);
            assert forall|j: int|
                0 <= j < g0.nodes.len() && j != id && !ticked(g0, j, tick) && #[trigger] ticked(
                *self,
                j,
                tick,
            ) implies ticked_closed(*self, j, tick) by {
                assert(self.nodes[j] == s1.nodes[j]);
                assert(ticked(s1, j, tick));
                assert(ticked_closed(s1, j, tick));
                assert forall|k: int|
                    0 <= k < spec_edges(self.nodes[j].ug).len() implies ticked(
                    *self,
                    #[trigger] spec_edges(self.nodes[j].ug)[k] as int,
                    tick,
                ) by {
                    let e = spec_edges(s1.nodes[j].ug)[k] as int;
                    assert(ticked(s1, e, tick));
                    assert(wf_node(s1, j));
                    assert(edge_ok(s1, j, spec_edges(s1.nodes[j].ug)[k]));
                    if e != id {
                        assert(self.nodes[e] == s1.nodes[e]);
                    }
                }
            }
            assert forall|j: int|
                0 <= j < g0.nodes.len() && j != id implies #[trigger] spec_eg_step_ok(
                g0,
                *self,
                id as int,
                j,
            ) by {
                assert(self.nodes[j] == s1.nodes[j]);
                assert(spec_eg_step_ok(g0, s1, id as int, j));
            }
            assert forall|j: int|
                0 <= j < g0.nodes.len() && j != id && !ticked(g0, j, tick) && #[trigger] ticked(
                *self,
                j,
                tick,
            ) implies spec_cache_post(g0.nodes[j].ug, self.nodes[j]) by {
                assert(self.nodes[j] == s1.nodes[j]);
                assert(ticked(s1, j, tick));
            }
            assert(eval_mid(g0, *self, id as int, tick));
            assert forall|i2: int|
                0 <= i2 < spec_edges(g0.nodes[id as int].ug).len() implies ticked(
                *self,
                #[trigger] spec_edges(g0.nodes[id as int].ug)[i2] as int,
                tick,
            ) by {
                assert(wf_node(g0, id as int));
                assert(edge_ok(g0, id as int, spec_edges(g0.nodes[id as int].ug)[i2]));
                assert(ticked(s1, spec_edges(g0.nodes[id as int].ug)[i2] as int, tick));
            }
        }
    }
}


/// The phase accumulator a variant carries, zero where it has none.
pub open spec fn spec_ph_field(u: UG) -> u64 {
    match u {
        UG::Sine { ph, .. } => ph,
        UG::Tri { ph, .. } => ph,
        UG::Saw { ph, .. } => ph,
        UG::Pulse { ph, .. } => ph,
        _ => ZERO_BITS,
    }
}

/// The node whose phase accumulator a read or write of node `id`'s
/// phase lands on: the node itself for the plain oscillators, the
/// wrapped oscillator for a phase shaper, wavetable or one-shot, and
/// none for anything else.
pub open spec fn spec_ph_target(g: Graph, id: int) -> Option<int>
    decreases spec_rank(g, id),
{
    if !(0 <= id < g.nodes.len()) {
        None
    } else {
        match g.nodes[id].ug {
            UG::Sine { .. } => Some(id),
            UG::Tri { .. } => Some(id),
            UG::Saw { .. } => Some(id),
            UG::Pulse { .. } => Some(id),
            UG::Phase { osc } => if edge_ok(g, id, osc) {
                spec_ph_target(g, osc as int)
            } else {
                None
            },
            UG::WaveTable { ph, .. } => if edge_ok(g, id, ph) {
                spec_ph_target(g, ph as int)
            } else {
                None
            },
            UG::OneshotOsc { osc, .. } => if edge_ok(g, id, osc) {
                spec_ph_target(g, osc as int)
            } else {
                None
            },
            _ => None,
        }
    }
}

/// `n` with its phase accumulator set to `bits` (unchanged where it
/// has none).
pub open spec fn spec_with_ph(n: UGen, bits: u64) -> UGen {
    UGen {
        id: n.id,
        last_tick: n.last_tick,
        last_sig: n.last_sig,
        ug: match n.ug {
            UG::Sine { init_ph, freq, .. } => UG::Sine { init_ph, freq, ph: bits },
            UG::Tri { init_ph, freq, .. } => UG::Tri { init_ph, freq, ph: bits },
            UG::Saw { init_ph, freq, .. } => UG::Saw { init_ph, freq, ph: bits },
            UG::Pulse { init_ph, freq, duty, .. } => UG::Pulse { init_ph, freq, duty, ph: bits },
            _ => n.ug,
        },
    }
}

impl Graph {
    /// Replace the variant payload of `id` with one of the same shape,
    /// keeping the whole memo, outside any evaluation.
    fn swap_ug(&mut self, id: usize, new_ug: UG)
        requires
            wf(*old(self)),
            id < old(self).nodes.len(),
            spec_shape_eq(old(self).nodes[id as int].ug, new_ug),
        ensures
            wf(*final(self)),
            same_shape(*old(self), *final(self)),
            final(self).nodes.len() == old(self).nodes.len(),
            final(self).nodes[id as int].ug == new_ug,
            final(self).nodes[id as int].last_tick == old(self).nodes[id as int].last_tick,
            final(self).nodes[id as int].last_sig == old(self).nodes[id as int].last_sig,
            final(self).nodes[id as int].id == old(self).nodes[id as int].id,
            forall|j: int|
                0 <= j < old(self).nodes.len() && j != id ==> final(self).nodes[j] == #[trigger] old(
                    self,
                ).nodes[j],
    {
        let ghost s1 = *self;
        self.nodes[id].ug = new_ug;
        proof {
            assert(same_shape(s1, *self)) by {
                assert forall|i: int|
                    0 <= i < s1.nodes.len() implies #[trigger] spec_shape_eq(
                    s1.nodes[i].ug,
                    self.nodes[i].ug,
                ) by {
                    if i != id {
                        assert(self.nodes[i] == s1.nodes[i]);
                    }
                }
            }
            lemma_same_shape_wf(s1, *self);
        }
    }

    /// The phase accumulator behind an oscillator node; oscillators
    /// that wrap another oscillator delegate to it, and anything else
    /// reads as zero.
    pub fn get_ph(&self, id: usize) -> (r: u64)
        requires
            wf(*self),
            id < self.nodes.len(),
        ensures
            r == (match spec_ph_target(*self, id as int) {
                Some(t) => spec_ph_field(self.nodes[t].ug),
                None => ZERO_BITS,
            }),
        decreases spec_rank(*self, id as int),
    {
        match &self.nodes[id].ug {
            UG::Sine { ph, .. } => *ph,
            UG::Tri { ph, .. } => *ph,
            UG::Saw { ph, .. } => *ph,
            UG::Pulse { ph, .. } => *ph,
            UG::Phase { osc } => {
                let c = *osc;
                proof {
                    assert(wf_node(*self, id as int));
                    assert(edge_ok(*self, id as int, spec_edges(self.nodes[id as int].ug)[0]));
                }
                self.get_ph(c)
            },
            UG::WaveTable { ph, .. } => {
                let c = *ph;
                proof {
                    assert(wf_node(*self, id as int));
                    assert(edge_ok(*self, id as int, spec_edges(self.nodes[id as int].ug)[1]));
                }
                self.get_ph(c)
            },
            UG::OneshotOsc { osc, .. } => {
                let c = *osc;
                proof {
                    assert(wf_node(*self, id as int));
                    assert(edge_ok(*self, id as int, spec_edges(self.nodes[id as int].ug)[0]));
                }
                self.get_ph(c)
            },
            _ => ZERO_BITS,
        }
    }

    /// Set the phase accumulator behind an oscillator node.  Memos,
    /// graph shape, and everything not reachable from `id` are
    /// untouched.
    pub fn set_ph(&mut self, id: usize, ph_bits: u64)
        requires
            wf(*old(self)),
            id < old(self).nodes.len(),
        ensures
            wf(*final(self)),
            same_shape(*old(self), *final(self)),
            final(self).nodes.len() == old(self).nodes.len(),
            forall|j: int|
                0 <= j < old(self).nodes.len() ==> #[trigger] final(self).nodes[j].last_tick == old(
                    self,
                ).nodes[j].last_tick && final(self).nodes[j].last_sig == old(
                    self,
                ).nodes[j].last_sig,
            forall|j: int|
                0 <= j < old(self).nodes.len() && !crate::walk::reach(*old(self), id as int, j)
                    ==> final(self).nodes[j] == #[trigger] old(self).nodes[j],
            (match spec_ph_target(*old(self), id as int) {
                Some(t) => final(self).nodes@ == old(self).nodes@.update(
                    t,
                    spec_with_ph(old(self).nodes[t], ph_bits),
                ),
                None => *final(self) == *old(self),
            }),
        decreases spec_rank(*old(self), id as int),
    {
        let ghost g0 = *self;
        match &self.nodes[id].ug {
            UG::Sine { init_ph, freq, .. } => {
                let (a, b) = (*init_ph, *freq);
                self.swap_ug(id, UG::Sine { init_ph: a, freq: b, ph: ph_bits });
                proof {
                    assert(self.nodes@ =~= g0.nodes@.update(
                        id as int,
                        spec_with_ph(g0.nodes[id as int], ph_bits),
                    ));
                }
            },
            UG::Tri { init_ph, freq, .. } => {
                let (a, b) = (*init_ph, *freq);
                self.swap_ug(id, UG::Tri { init_ph: a, freq: b, ph: ph_bits });
                proof {
                    assert(self.nodes@ =~= g0.nodes@.update(
                        id as int,
                        spec_with_ph(g0.nodes[id as int], ph_bits),
                    ));
                }
            },
            UG::Saw { init_ph, freq, .. } => {
                let (a, b) = (*init_ph, *freq);
                self.swap_ug(id, UG::Saw { init_ph: a, freq: b, ph: ph_bits });
                proof {
                    assert(self.nodes@ =~= g0.nodes@.update(
                        id as int,
                        spec_with_ph(g0.nodes[id as int], ph_bits),
                    ));
                }
            },
            UG::Pulse { init_ph, freq, duty, .. } => {
                let (a, b, d) = (*init_ph, *freq, *duty);
                self.swap_ug(id, UG::Pulse { init_ph: a, freq: b, duty: d, ph: ph_bits });
                proof {
                    assert(self.nodes@ =~= g0.nodes@.update(
                        id as int,
                        spec_with_ph(g0.nodes[id as int], ph_bits),
                    ));
                }
            },
            UG::Phase { osc } => {
                let c = *osc;
                proof {
                    assert(wf_node(g0, id as int));
                    assert(edge_ok(g0, id as int, spec_edges(g0.nodes[id as int].ug)[0]));
                    lemma_edge_rank(g0, id as int, c);
                }
                self.set_ph(c, ph_bits);
                proof {
                    lemma_set_ph_frame(g0, *self, id as int, 0);
                }
            },
            UG::WaveTable { ph, .. } => {
                let c = *ph;
                proof {
                    assert(wf_node(g0, id as int));
                    assert(edge_ok(g0, id as int, spec_edges(g0.nodes[id as int].ug)[1]));
                    lemma_edge_rank(g0, id as int, c);
                }
                self.set_ph(c, ph_bits);
                proof {
                    lemma_set_ph_frame(g0, *self, id as int, 1);
                }
            },
            UG::OneshotOsc { osc, .. } => {
                let c = *osc;
                proof {
                    assert(wf_node(g0, id as int));
                    assert(edge_ok(g0, id as int, spec_edges(g0.nodes[id as int].ug)[0]));
                    lemma_edge_rank(g0, id as int, c);
                }
                self.set_ph(c, ph_bits);
                proof {
                    lemma_set_ph_frame(g0, *self, id as int, 0);
                }
            },
            _ => {},
        }
    }

    /// The envelope state of node `id`; anything that is not an
    /// envelope generator reads as idle.
    pub fn get_state(&self, id: usize) -> (r: ADSR)
        requires
            id < self.nodes.len(),
        ensures
            r == (match self.nodes[id as int].ug {
                UG::Adsr { state, .. } => state,
                _ => ADSR::Off,
            }),
    {
        match &self.nodes[id].ug {
            UG::Adsr { state, .. } => *state,
            _ => ADSR::Off,
        }
    }

    /// Force the envelope state of node `id`; a node that is not an
    /// envelope generator is left alone.
    pub fn set_state(&mut self, id: usize, state: ADSR, eplaced: u64)
        requires
            wf(*old(self)),
            id < old(self).nodes.len(),
        ensures
            wf(*final(self)),
            same_shape(*old(self), *final(self)),
            final(self).nodes.len() == old(self).nodes.len(),
            forall|j: int|
                0 <= j < old(self).nodes.len() ==> #[trigger] final(self).nodes[j].last_tick == old(
                    self,
                ).nodes[j].last_tick && final(self).nodes[j].last_sig == old(
                    self,
                ).nodes[j].last_sig,
            forall|j: int|
                0 <= j < old(self).nodes.len() && j != id ==> final(self).nodes[j] == #[trigger] old(
                    self,
                ).nodes[j],
            (match old(self).nodes[id as int].ug {
                UG::Adsr { a, d, s, r, .. } => final(self).nodes[id as int].ug == (UG::Adsr {
                    a,
                    d,
                    s,
                    r,
                    state,
                    eplaced,
                }),
                _ => *final(self) == *old(self),
            }),
    {
        match &self.nodes[id].ug {
            UG::Adsr { a, d, s, r, .. } => {
                let (aa, dd, ss, rr) = (*a, *d, *s, *r);
                self.swap_ug(id, UG::Adsr { a: aa, d: dd, s: ss, r: rr, state, eplaced });
            },
            _ => {},
        }
    }
}

/// The frame of a phase write that recursed into edge `kk` of `id`:
/// nothing outside `id`'s reach moved.
pub proof fn lemma_set_ph_frame(g0: Graph, s2: Graph, id: int, kk: int)
    requires
        wf(g0),
        0 <= id < g0.nodes.len(),
        0 <= kk < spec_edges(g0.nodes[id].ug).len(),
        forall|j: int|
            0 <= j < g0.nodes.len() && !crate::walk::reach(
                g0,
                spec_edges(g0.nodes[id].ug)[kk] as int,
                j,
            ) ==> s2.nodes[j] == #[trigger] g0.nodes[j],
    ensures
        forall|j: int|
            0 <= j < g0.nodes.len() && !crate::walk::reach(g0, id, j) ==> s2.nodes[j]
                == #[trigger] g0.nodes[j],
{
    assert forall|j: int|
        0 <= j < g0.nodes.len() && !crate::walk::reach(g0, id, j) implies s2.nodes[j]
        == #[trigger] g0.nodes[j] by {
        lemma_reach_step(g0, id, kk);
        if crate::walk::reach(g0, spec_edges(g0.nodes[id].ug)[kk] as int, j) {
            lemma_reach_trans(g0, id, spec_edges(g0.nodes[id].ug)[kk] as int, j);
            assert(false);
        }
    }
}


/// Shape-preserving changes move neither the phase target nor the
/// kind of node it lands on.
pub proof fn lemma_ph_target_shape(g1: Graph, g2: Graph, i: int)
    requires
        wf(g1),
        same_shape(g1, g2),
    ensures
        spec_ph_target(g1, i) == spec_ph_target(g2, i),
    decreases spec_rank(g1, i) + spec_rank(g2, i) + 1,
{
    lemma_same_shape_wf(g1, g2);
    if 0 <= i < g1.nodes.len() {
        assert(spec_shape_eq(g1.nodes[i].ug, g2.nodes[i].ug));
        lemma_shape_eq_edges(g1.nodes[i].ug, g2.nodes[i].ug);
        match g1.nodes[i].ug {
            UG::Phase { osc } => {
                assert(wf_node(g1, i));
                assert(edge_ok(g1, i, spec_edges(g1.nodes[i].ug)[0]));
                assert(wf_node(g2, i));
                assert(edge_ok(g2, i, spec_edges(g2.nodes[i].ug)[0]));
                lemma_ph_target_shape(g1, g2, osc as int);
            },
            UG::WaveTable { ph, .. } => {
                assert(wf_node(g1, i));
                assert(edge_ok(g1, i, spec_edges(g1.nodes[i].ug)[1]));
                assert(wf_node(g2, i));
                assert(edge_ok(g2, i, spec_edges(g2.nodes[i].ug)[1]));
                lemma_ph_target_shape(g1, g2, ph as int);
            },
            UG::OneshotOsc { osc, .. } => {
                assert(wf_node(g1, i));
                assert(edge_ok(g1, i, spec_edges(g1.nodes[i].ug)[0]));
                assert(wf_node(g2, i));
                assert(edge_ok(g2, i, spec_edges(g2.nodes[i].ug)[0]));
                lemma_ph_target_shape(g1, g2, osc as int);
            },
            _ => {},
        }
    }
}

/// Whether a variant carries its own phase accumulator.
pub open spec fn spec_is_plain_osc(u: UG) -> bool {
    match u {
        UG::Sine { .. } => true,
        UG::Tri { .. } => true,
        UG::Saw { .. } => true,
        UG::Pulse { .. } => true,
        _ => false,
    }
}

/// The phase target of a node is reachable from it and carries its own
/// phase accumulator.
pub proof fn lemma_ph_target_reach(g: Graph, i: int)
    requires
        wf(g),
        0 <= i < g.nodes.len(),
    ensures
        (match spec_ph_target(g, i) {
            Some(t) => 0 <= t < g.nodes.len() && crate::walk::reach(g, i, t)
                && spec_is_plain_osc(g.nodes[t].ug),
            None => true,
        }),
    decreases spec_rank(g, i),
{
    match g.nodes[i].ug {
        UG::Phase { osc } => {
            assert(wf_node(g, i));
            assert(edge_ok(g, i, spec_edges(g.nodes[i].ug)[0]));
            lemma_ph_target_reach(g, osc as int);
            lemma_reach_step(g, i, 0);
            match spec_ph_target(g, osc as int) {
                Option::Some(tt) => {
                    lemma_reach_trans(g, i, osc as int, tt);
                },
                Option::None => {},
            }
        },
        UG::WaveTable { ph, .. } => {
            assert(wf_node(g, i));
            assert(edge_ok(g, i, spec_edges(g.nodes[i].ug)[1]));
            lemma_ph_target_reach(g, ph as int);
            lemma_reach_step(g, i, 1);
            match spec_ph_target(g, ph as int) {
                Option::Some(tt) => {
                    lemma_reach_trans(g, i, ph as int, tt);
                },
                Option::None => {},
            }
        },
        UG::OneshotOsc { osc, .. } => {
            assert(wf_node(g, i));
            assert(edge_ok(g, i, spec_edges(g.nodes[i].ug)[0]));
            lemma_ph_target_reach(g, osc as int);
            lemma_reach_step(g, i, 0);
            match spec_ph_target(g, osc as int) {
                Option::Some(tt) => {
                    lemma_reach_trans(g, i, osc as int, tt);
                },
                Option::None => {},
            }
        },
        _ => {},
    }
}

/// What one evaluation of a stale node guarantees of its output and
/// state, over the entry state `g0` and the final state `gf`, with no
/// appeal to the host arithmetic's values: channel equality for the
/// mono producers, the pulse's two-level range, the random source's
/// count machine, the one-shot's gating and resets, the envelope's
/// state machine, the filter's history shift, the delay's ring update,
/// and silence for the data leaves and the empty mixer.
pub open spec fn spec_variant_post(g0: Graph, gf: Graph, id: int, sig: Signal) -> bool {
    match g0.nodes[id].ug {
        UG::Val(lit) => sig == (Signal { l: lit.bits, r: lit.bits }),
        UG::Tab(_) => sig == spec_zero_signal(),
        UG::Pat(_) => sig == spec_zero_signal(),
        UG::Sine { .. } => sig.l == sig.r,
        UG::Tri { .. } => sig.l == sig.r,
        UG::Saw { .. } => sig.l == sig.r,
        UG::Pulse { .. } => sig.l == sig.r && (sig.l == ONE_BITS || sig.l == NEG_ONE_BITS),
        UG::Rand { freq, count, v } => sig.l == sig.r && ({
            ||| gf.nodes[id].ug == (UG::Rand { freq, count: 0, v: sig.l })
            ||| (sig.l == v && gf.nodes[id].ug == (UG::Rand {
                freq,
                count: if count < u64::MAX {
                    (count + 1) as u64
                } else {
                    count
                },
                v,
            }))
        }),
        UG::Phase { .. } => true,
        UG::WaveTable { table, .. } => sig.l == sig.r && (table < g0.nodes.len()
            ==> (match g0.nodes[table as int].ug {
            UG::Tab(d) => d@.len() == 0 ==> sig == spec_zero_signal(),
            _ => sig == spec_zero_signal(),
        })),
        UG::OneshotOsc { osc, eg } => sig.l == sig.r && (osc < g0.nodes.len() && eg
            < g0.nodes.len() ==> ({
            &&& ({
                ||| sig.l == gf.nodes[osc as int].last_sig.l
                ||| spec_oneshot_off(g0, gf, osc, eg, sig)
            })
            &&& (!(spec_osc_kind(g0.nodes[osc as int].ug) && spec_eg_active(
                g0.nodes[eg as int].ug,
            )) ==> spec_oneshot_off(g0, gf, osc, eg, sig))
            &&& ((spec_osc_kind(g0.nodes[osc as int].ug) && spec_eg_active(
                g0.nodes[eg as int].ug,
            ) && spec_no_eg_interference(g0, id, eg as int)) ==> sig.l == gf.nodes[
                osc as int
            ].last_sig.l)
        })),
        UG::Adsr { a, d, s, r, state, eplaced } => sig.l == sig.r && ({
            let bump = if eplaced < u64::MAX {
                (eplaced + 1) as u64
            } else {
                eplaced
            };
            match state {
                ADSR::Off => sig == spec_zero_signal() && gf.nodes[id].ug == (UG::Adsr {
                    a,
                    d,
                    s,
                    r,
                    state: ADSR::Off,
                    eplaced: 0,
                }),
                ADSR::Sustin => (s < g0.nodes.len() ==> sig.l
                    == gf.nodes[s as int].last_sig.l) && gf.nodes[id].ug == (UG::Adsr {
                    a,
                    d,
                    s,
                    r,
                    state: ADSR::Sustin,
                    eplaced: bump,
                }),
                ADSR::Attack => ({
                    ||| (sig.l == ONE_BITS && gf.nodes[id].ug == (UG::Adsr {
                        a,
                        d,
                        s,
                        r,
                        state: ADSR::Decay,
                        eplaced: 0,
                    }))
                    ||| gf.nodes[id].ug == (UG::Adsr {
                        a,
                        d,
                        s,
                        r,
                        state: ADSR::Attack,
                        eplaced: bump,
                    })
                }),
                ADSR::Decay => ({
                    ||| ((s < g0.nodes.len() ==> sig.l == gf.nodes[s as int].last_sig.l)
                        && gf.nodes[id].ug == (UG::Adsr {
                        a,
                        d,
                        s,
                        r,
                        state: ADSR::Sustin,
                        eplaced: 0,
                    }))
                    ||| gf.nodes[id].ug == (UG::Adsr {
                        a,
                        d,
                        s,
                        r,
                        state: ADSR::Decay,
                        eplaced: bump,
                    })
                }),
                ADSR::Release => ({
                    ||| (sig == spec_zero_signal() && gf.nodes[id].ug == (UG::Adsr {
                        a,
                        d,
                        s,
                        r,
                        state: ADSR::Off,
                        eplaced: 0,
                    }))
                    ||| gf.nodes[id].ug == (UG::Adsr {
                        a,
                        d,
                        s,
                        r,
                        state: ADSR::Release,
                        eplaced: bump,
                    })
                }),
            }
        }),
        UG::Lpf { freq, q, src, in0, out0, .. } => src < g0.nodes.len() ==> gf.nodes[id].ug
            == (UG::Lpf {
            freq,
            q,
            src,
            in0: gf.nodes[src as int].last_sig,
            in1: in0,
            out0: sig,
            out1: out0,
        }),
        UG::Delay { time, feedback, mix, src, buffer, head } => {
            if buffer@.len() > 0 && head < buffer@.len() && src < g0.nodes.len() {
                let nh: usize = if head == 0 {
                    (buffer@.len() - 1) as usize
                } else {
                    (head - 1) as usize
                };
                (match gf.nodes[id].ug {
                    UG::Delay { time: t2, feedback: f2, mix: m2, src: s2, buffer: b2, head: h2 } => {
                        &&& t2 == time
                        &&& f2 == feedback
                        &&& m2 == mix
                        &&& s2 == src
                        &&& h2 == nh
                        &&& b2@ == buffer@.update(nh as int, gf.nodes[src as int].last_sig)
                    },
                    _ => false,
                })
            } else {
                gf.nodes[id].ug == g0.nodes[id].ug
            }
        },
        UG::Mix { sources } => sources@.len() == 0 ==> sig == spec_zero_signal(),
    }
}

impl Graph {
    /// Evaluate node `id` for the transport's current tick, memoized.
    ///
    /// The first call for a node at a given tick runs its variant:
    /// every parameter edge is evaluated first (so, by induction, every
    /// node evaluation actively reaches is evaluated exactly once), the
    /// variant's arithmetic is computed through the host `Fp`, its
    /// per-node state advances, and the output is cached.  Any later
    /// call at the same tick returns the cached output and changes
    /// nothing at all.  Nodes not reachable from `id` are never
    /// touched, and valid memos elsewhere are never invalidated.
    ///
    /// Beyond the memo protocol, the contract pins everything the host
    /// arithmetic cannot decide: the per-variant output and state step
    /// of the evaluated node (`spec_variant_post`), the sound shape of
    /// every freshly cached sample in the subtree (`caches_ok`), and
    /// that an envelope's activity class moves only by its own
    /// per-tick step or by a reachable one-shot forcing it off
    /// (`spec_eg_step_ok`).
    #[verifier::rlimit(100)]
    #[verifier::spinoff_prover]
    pub fn proc<F: Fp>(&mut self, id: usize, t: &Transport, fp: &mut F) -> (sig: Signal)
        requires
            wf(*old(self)),
            id < old(self).nodes.len(),
            t.tick < u64::MAX,
        ensures
            wf(*final(self)),
            same_shape(*old(self), *final(self)),
            ticked(*final(self), id as int, t.tick),
            sig == final(self).nodes[id as int].last_sig,
            ticked(*old(self), id as int, t.tick) ==> *final(self) == *old(self) && sig == old(
                self,
            ).nodes[id as int].last_sig,
            memo_persist(*old(self), *final(self), t.tick),
            new_ticks_closed(*old(self), *final(self), t.tick),
            forall|j: int|
                0 <= j < old(self).nodes.len() && !crate::walk::reach(*old(self), id as int, j)
                    ==> final(self).nodes[j] == #[trigger] old(self).nodes[j],
            forall|j: int|
                #[trigger] active_reach(*old(self), t.tick, id as int, j) && 0 <= j < old(
                    self,
                ).nodes.len() ==> ticked(*final(self), j, t.tick),
            forall|j: int|
                0 <= j < old(self).nodes.len() ==> #[trigger] spec_eg_step_ok(
                    *old(self),
                    *final(self),
                    id as int,
                    j,
                ),
            caches_ok(*old(self), *final(self), t.tick),
            !ticked(*old(self), id as int, t.tick) ==> spec_variant_post(
                *old(self),
                *final(self),
                id as int,
                sig,
            ),
        decreases spec_rank(*old(self), id as int),
    {
        let tick = t.tick;
        if self.nodes[id].last_tick == tick {
            return self.nodes[id].last_sig;
        }
        let ghost g0 = *self;
        self.nodes[id].last_tick = tick;
        proof {
            assert(same_shape(g0, *self)) by {
                assert forall|i: int|
                    0 <= i < g0.nodes.len() implies #[trigger] spec_shape_eq(
                    g0.nodes[i].ug,
                    self.nodes[i].ug,
                ) by {
                    if i != id {
                        assert(self.nodes[i] == g0.nodes[i]);
                    }
                }
            }
            lemma_same_shape_wf(g0, *self);
            assert forall|j: int|
                0 <= j < g0.nodes.len() && j != id implies #[trigger] spec_eg_step_ok(
                g0,
                *self,
                id as int,
                j,
            ) && spec_eg_step_under(g0, *self, id as int, j) by {
                assert(self.nodes[j] == g0.nodes[j]);
            }
            assert(eval_mid(g0, *self, id as int, tick));
        }
        // a one-shot gates on the phase its oscillator had before this
        // tick's evaluation advances it
        let pre_ph: u64 = match &self.nodes[id].ug {
            UG::OneshotOsc { osc, .. } => {
                let o = *osc;
                proof {
                    assert(wf_node(g0, id as int));
                    assert(edge_ok(g0, id as int, spec_edges(g0.nodes[id as int].ug)[0]));
                }
                self.get_ph(o)
            },
            _ => ZERO_BITS,
        };
        let children = self.children_of(id);
        let ghost cs = spec_edges(g0.nodes[id as int].ug);
        let mut vals: Vec<Signal> = Vec::new();
        let mut k: usize = 0;
        while k < children.len()
            invariant
                wf(g0),
                g0 == *old(self),
                (id as int) < g0.nodes.len(),
                tick < u64::MAX,
                t.tick == tick,
                cs == spec_edges(g0.nodes[id as int].ug),
                children@ == cs,
                k <= cs.len(),
                vals@.len() == k,
                eval_mid(g0, *self, id as int, tick),
                forall|j: int|
                    0 <= j < g0.nodes.len() && j != id ==> #[trigger] spec_eg_step_under(
                        g0,
                        *self,
                        id as int,
                        j,
                    ),
                self.nodes[id as int].ug == g0.nodes[id as int].ug,
                self.nodes[id as int].last_sig == g0.nodes[id as int].last_sig,
                forall|i2: int| 0 <= i2 < k ==> ticked(*self, #[trigger] cs[i2] as int, tick),
                forall|i2: int|
                    0 <= i2 < k ==> (#[trigger] vals@[i2]) == self.nodes[cs[i2] as int].last_sig,
            decreases cs.len() - k,
        {
            let c = children[k];
            proof {
                assert(wf_node(g0, id as int));
                assert(edge_ok(g0, id as int, cs[k as int]));
                lemma_leaf_no_edges(g0.nodes[id as int].ug);
                lemma_edge_rank(g0, id as int, cs[k as int]);
                lemma_same_shape_wf(g0, *self);
                assert(spec_rank(*self, c as int) == spec_rank(g0, c as int));
                assert(spec_rank(g0, c as int) < spec_rank(g0, id as int));
            }
            let ghost s1 = *self;
            let v = self.proc(c, t, fp);
            vals.push(v);
            proof {
                lemma_child_step(g0, s1, *self, id as int, k as int, tick);
                assert(self.nodes[id as int].ug == g0.nodes[id as int].ug
                    && self.nodes[id as int].last_sig == g0.nodes[id as int].last_sig) by {
                    if crate::walk::reach(s1, c as int, id as int) {
                        lemma_same_shape_reach(g0, s1, c as int, id as int);
                        lemma_reach_rank(g0, c as int, id as int);
                        lemma_edge_rank(g0, id as int, c);
                        assert(false);
                    }
                    assert(self.nodes[id as int] == s1.nodes[id as int]);
                }
                assert forall|i2: int| 0 <= i2 < k + 1 implies ticked(
                    *self,
                    #[trigger] cs[i2] as int,
                    tick,
                ) && vals@[i2] == self.nodes[cs[i2] as int].last_sig by {
                    assert(edge_ok(g0, id as int, cs[i2]));
                    if i2 < k {
                        assert(ticked(s1, cs[i2] as int, tick));
                        assert(memo_persist(s1, *self, tick));
                    }
                }
            }
            k = k + 1;
        }
        proof {
            assert(kids_ticked(g0, *self, id as int, tick));
        }
        proof {
            assert(kids_ticked(g0, *self, id as int, tick));
        }
        let out = self.eval_variant(id, vals, pre_ph, t, fp, Ghost(g0));
        proof {
            assert forall|j: int|
                0 <= j < g0.nodes.len() implies #[trigger] spec_eg_step_ok(
                g0,
                *self,
                id as int,
                j,
            ) by {
                if j == id {
                    if g0.nodes[id as int].ug matches UG::Adsr { .. } {
                        assert(spec_variant_post(g0, *self, id as int, out));
                    }
                } else {
                    assert(spec_eg_step_ok(g0, *self, id as int, j));
                }
            }
            assert forall|j: int|
                0 <= j < g0.nodes.len() && !ticked(g0, j, tick) && #[trigger] ticked(
                *self,
                j,
                tick,
            ) implies spec_cache_post(g0.nodes[j].ug, self.nodes[j]) by {
                if j == id {
                    assert(spec_variant_post(g0, *self, id as int, out));
                } else {
                    assert(spec_cache_post(g0.nodes[j].ug, self.nodes[j]));
                }
            }
            assert(new_ticks_closed(g0, *self, tick)) by {
                assert forall|j: int|
                    0 <= j < g0.nodes.len() && !ticked(g0, j, tick) && #[trigger] ticked(
                    *self,
                    j,
                    tick,
                ) implies ticked_closed(*self, j, tick) by {
                    if j == id {
                        assert(spec_shape_eq(g0.nodes[id as int].ug, self.nodes[id as int].ug));
                        lemma_shape_eq_edges(g0.nodes[id as int].ug, self.nodes[id as int].ug);
                        assert(kids_ticked(g0, *self, id as int, tick));
                    }
                }
            }
            assert forall|j: int|
                #[trigger] active_reach(g0, tick, id as int, j) && 0 <= j < g0.nodes.len() implies ticked(
                *self,
                j,
                tick,
            ) by {
                lemma_active_covered(g0, *self, id as int, j, tick);
            }
        }
        out
    }

    /// Run one variant's arithmetic and state step for node `id`, all
    /// of whose children already carry this tick's memos, and store its
    /// output.
    #[verifier::rlimit(100)]
    #[verifier::spinoff_prover]
    fn eval_variant<F: Fp>(
        &mut self,
        id: usize,
        vals: Vec<Signal>,
        pre_ph: u64,
        t: &Transport,
        fp: &mut F,
        Ghost(g0): Ghost<Graph>,
    ) -> (sig: Signal)
        requires
            wf(g0),
            id < g0.nodes.len(),
            t.tick < u64::MAX,
            eval_mid(g0, *old(self), id as int, t.tick),
            kids_ticked(g0, *old(self), id as int, t.tick),
            forall|j: int|
                0 <= j < g0.nodes.len() && j != id ==> #[trigger] spec_eg_step_under(
                    g0,
                    *old(self),
                    id as int,
                    j,
                ),
            old(self).nodes[id as int].ug == g0.nodes[id as int].ug,
            vals@.len() == spec_edges(g0.nodes[id as int].ug).len(),
            forall|i2: int|
                0 <= i2 < vals@.len() ==> (#[trigger] vals@[i2]) == old(self).nodes[spec_edges(
                    g0.nodes[id as int].ug,
                )[i2] as int].last_sig,
        ensures
            eval_mid(g0, *final(self), id as int, t.tick),
            kids_ticked(g0, *final(self), id as int, t.tick),
            sig == final(self).nodes[id as int].last_sig,
            spec_variant_post(g0, *final(self), id as int, sig),
        decreases 0int,
    {
        let tick = t.tick;
        let ghost cs = spec_edges(g0.nodes[id as int].ug);
        let ghost after_kids = *self;
        let out: Signal = match &self.nodes[id].ug {
            UG::Val(lit) => {
                let b = lit.bits;
                let s = Signal { l: b, r: b };
                self.store_sig(id, s, Ghost(g0), Ghost(tick));
                proof {
                    assert(spec_variant_post(g0, *self, id as int, s));
                }
                s
            },
            UG::Tab(_) => {
                let s = zero_signal();
                self.store_sig(id, s, Ghost(g0), Ghost(tick));
                proof {
                    assert(spec_variant_post(g0, *self, id as int, s));
                }
                s
            },
            UG::Pat(_) => {
                let s = zero_signal();
                self.store_sig(id, s, Ghost(g0), Ghost(tick));
                proof {
                    assert(spec_variant_post(g0, *self, id as int, s));
                }
                s
            },
            UG::Sine { init_ph, freq, ph } => {
                let (ip, fq, ph0) = (*init_ph, *freq, *ph);
                proof {
                    assert(cs.len() == 2);
                }
                let sum = fp.add(vals[0].l, ph0);
                let v = fp.sin(sum);
                let sr_f = fp.of_int(t.sample_rate as u64);
                let ph_diff = fp.div(sr_f, PI_BITS);
                let delta = fp.div(vals[1].l, ph_diff);
                let new_ph = fp.add(ph0, delta);
                self.set_node_ug(
                    id,
                    UG::Sine { init_ph: ip, freq: fq, ph: new_ph },
                    Ghost(g0),
                    Ghost(tick),
                );
                let s = Signal { l: v, r: v };
                self.store_sig(id, s, Ghost(g0), Ghost(tick));
                proof {
                    assert(spec_variant_post(g0, *self, id as int, s));
                }
                s
            },
            UG::Tri { init_ph, freq, ph } => {
                let (ip, fq, ph0) = (*init_ph, *freq, *ph);
                proof {
                    assert(cs.len() == 2);
                }
                let phv = fp.add(vals[0].l, ph0);
                let sr_f = fp.of_int(t.sample_rate as u64);
                let ph_diff = fp.mul(sr_f, TWO_BITS);
                let delta = fp.div(vals[1].l, ph_diff);
                let new_ph = fp.add(ph0, delta);
                let x = fp.rem(phv, ONE_BITS);
                let v: u64 = if fp.ge(x, crate::fp::THREE_QUARTER_BITS) {
                    let m = fp.mul(crate::fp::FOUR_BITS, x);
                    fp.sub(m, crate::fp::FOUR_BITS)
                } else {
                    let lower = fp.ge(x, crate::fp::QUARTER_BITS);
                    if lower {
                        let m = fp.mul(crate::fp::NEG_FOUR_BITS, x);
                        fp.add(m, TWO_BITS)
                    } else {
                        fp.mul(crate::fp::FOUR_BITS, x)
                    }
                };
                self.set_node_ug(
                    id,
                    UG::Tri { init_ph: ip, freq: fq, ph: new_ph },
                    Ghost(g0),
                    Ghost(tick),
                );
                let s = Signal { l: v, r: v };
                self.store_sig(id, s, Ghost(g0), Ghost(tick));
                proof {
                    assert(spec_variant_post(g0, *self, id as int, s));
                }
                s
            },
            UG::Saw { init_ph, freq, ph } => {
                let (ip, fq, ph0) = (*init_ph, *freq, *ph);
                proof {
                    assert(cs.len() == 2);
                }
                let phv = fp.add(vals[0].l, ph0);
                let sr_f = fp.of_int(t.sample_rate as u64);
                let ph_diff = fp.mul(sr_f, TWO_BITS);
                let delta = fp.div(vals[1].l, ph_diff);
                let new_ph = fp.add(ph0, delta);
                let x = fp.rem(phv, ONE_BITS);
                let v: u64 = if fp.ge(x, HALF_BITS) {
                    let m = fp.mul(TWO_BITS, x);
                    fp.sub(m, TWO_BITS)
                } else {
                    fp.mul(TWO_BITS, x)
                };
                self.set_node_ug(
                    id,
                    UG::Saw { init_ph: ip, freq: fq, ph: new_ph },
                    Ghost(g0),
                    Ghost(tick),
                );
                let s = Signal { l: v, r: v };
                self.store_sig(id, s, Ghost(g0), Ghost(tick));
                proof {
                    assert(spec_variant_post(g0, *self, id as int, s));
                }
                s
            },
            UG::Pulse { init_ph, freq, duty, ph } => {
                let (ip, fq, du, ph0) = (*init_ph, *freq, *duty, *ph);
                proof {
                    assert(cs.len() == 3);
                }
                let phv = fp.add(vals[0].l, ph0);
                let dutyv = vals[2].l;
                let sr_f = fp.of_int(t.sample_rate as u64);
                let ph_diff = fp.mul(sr_f, TWO_BITS);
                let delta = fp.div(vals[1].l, ph_diff);
                let new_ph = fp.add(ph0, delta);
                let x = fp.rem(phv, ONE_BITS);
                let v: u64 = if fp.lt(x, dutyv) {
                    ONE_BITS
                } else {
                    NEG_ONE_BITS
                };
                self.set_node_ug(
                    id,
                    UG::Pulse { init_ph: ip, freq: fq, duty: du, ph: new_ph },
                    Ghost(g0),
                    Ghost(tick),
                );
                let s = Signal { l: v, r: v };
                self.store_sig(id, s, Ghost(g0), Ghost(tick));
                proof {
                    assert(spec_variant_post(g0, *self, id as int, s));
                }
                s
            },
            UG::Rand { freq, count, v } => {
                let (fq, count0, v0) = (*freq, *count, *v);
                proof {
                    assert(cs.len() == 1);
                }
                let thresh = fp.to_int(vals[0].l);
                let s: Signal;
                if count0 >= thresh {
                    let nv = fp.rand_unit(id);
                    self.set_node_ug(
                        id,
                        UG::Rand { freq: fq, count: 0, v: nv },
                        Ghost(g0),
                        Ghost(tick),
                    );
                    s = Signal { l: nv, r: nv };
                } else {
                    let nc: u64 = if count0 < u64::MAX {
                        count0 + 1
                    } else {
                        count0
                    };
                    self.set_node_ug(
                        id,
                        UG::Rand { freq: fq, count: nc, v: v0 },
                        Ghost(g0),
                        Ghost(tick),
                    );
                    s = Signal { l: v0, r: v0 };
                }
                self.store_sig(id, s, Ghost(g0), Ghost(tick));
                proof {
                    assert(spec_variant_post(g0, *self, id as int, s));
                }
                s
            },
            UG::Phase { .. } => {
                proof {
                    assert(cs.len() == 1);
                }
                let x = vals[0];
                let cl: u64 = if fp.lt(x.l, NEG_ONE_BITS) {
                    NEG_ONE_BITS
                } else {
                    let over = fp.lt(ONE_BITS, x.l);
                    if over {
                        ONE_BITS
                    } else {
                        x.l
                    }
                };
                let cr: u64 = if fp.lt(x.r, NEG_ONE_BITS) {
                    NEG_ONE_BITS
                } else {
                    let over = fp.lt(ONE_BITS, x.r);
                    if over {
                        ONE_BITS
                    } else {
                        x.r
                    }
                };
                let gl = fp.mul(HALF_BITS, cl);
                let gr = fp.mul(HALF_BITS, cr);
                let ol = fp.add(ONE_BITS, gl);
                let or = fp.add(ONE_BITS, gr);
                let s = Signal { l: ol, r: or };
                self.store_sig(id, s, Ghost(g0), Ghost(tick));
                proof {
                    assert(spec_variant_post(g0, *self, id as int, s));
                }
                s
            },
            UG::Mix { .. } => {
                let mut l = ZERO_BITS;
                let mut r = ZERO_BITS;
                let mut i: usize = 0;
                while i < vals.len()
                    invariant
                        i <= vals@.len(),
                        i == 0 ==> l == ZERO_BITS && r == ZERO_BITS,
                    decreases vals@.len() - i,
                {
                    l = fp.add(l, vals[i].l);
                    r = fp.add(r, vals[i].r);
                    i = i + 1;
                }
                let s = Signal { l, r };
                self.store_sig(id, s, Ghost(g0), Ghost(tick));
                proof {
                    assert(spec_variant_post(g0, *self, id as int, s));
                }
                s
            },
            UG::WaveTable { table, ph } => {
                let (tab_id, _ph_id) = (*table, *ph);
                proof {
                    assert(cs.len() == 2);
                    assert(wf_node(g0, id as int));
                    assert(edge_ok(g0, id as int, cs[0]));
                    assert(same_shape(g0, *self));
                }
                let ph_sig = vals[1].l;
                proof {
                    assert(spec_shape_eq(g0.nodes[tab_id as int].ug, self.nodes[tab_id as int].ug));
                }
                let s: Signal = match &self.nodes[tab_id].ug {
                    UG::Tab(data) => {
                        let len = data.len();
                        if len == 0 {
                            zero_signal()
                        } else {
                            let len_f = fp.of_int(len as u64);
                            let p = fp.mul(ph_sig, len_f);
                            let fl = fp.floor(p);
                            let flm = fp.rem(fl, len_f);
                            let i1 = fp.to_index(flm);
                            let ce = fp.ceil(p);
                            let cem = fp.rem(ce, len_f);
                            let i2 = fp.to_index(cem);
                            let pos1: usize = if i1 < len {
                                i1
                            } else {
                                0
                            };
                            let pos2: usize = if i2 < len {
                                i2
                            } else {
                                0
                            };
                            let fr = fp.fract(p);
                            let rr = fp.rem(fr, ONE_BITS);
                            let v1 = data[pos1].bits;
                            let v2 = data[pos2].bits;
                            let a = fp.mul(v1, rr);
                            let om = fp.sub(ONE_BITS, rr);
                            let b2 = fp.mul(v2, om);
                            let v = fp.add(a, b2);
                            Signal { l: v, r: v }
                        }
                    },
                    _ => zero_signal(),
                };
                self.store_sig(id, s, Ghost(g0), Ghost(tick));
                proof {
                    assert(spec_variant_post(g0, *self, id as int, s));
                }
                s
            },
            UG::OneshotOsc { osc, eg } => {
                let (osc_id, eg_id) = (*osc, *eg);
                proof {
                    assert(cs.len() == 2);
                    assert(wf_node(g0, id as int));
                    assert(edge_ok(g0, id as int, cs[0]));
                    assert(edge_ok(g0, id as int, cs[1]));
                    lemma_same_shape_wf(g0, *self);
                    lemma_leaf_no_edges(g0.nodes[id as int].ug);
                    lemma_edge_rank(g0, id as int, osc_id);
                    lemma_edge_rank(g0, id as int, eg_id);
                }
                let gate = self.both_osc_eg(osc_id, eg_id);
                let mut ph0 = ZERO_BITS;
                let mut st = ADSR::Off;
                if gate {
                    ph0 = pre_ph;
                    st = self.get_state(eg_id);
                }
                let active = match st {
                    ADSR::Attack => true,
                    ADSR::Decay => true,
                    ADSR::Sustin => true,
                    _ => false,
                };
                proof {
                    // tie the computed gate to the entry state: kinds are
                    // shape-stable, and the envelope's activity class
                    // survives the children unless a one-shot under an
                    // edge forced it off
                    assert(eg_id as int != id);
                    assert(osc_id as int != id);
                    assert(spec_shape_eq(g0.nodes[osc_id as int].ug, self.nodes[osc_id as int].ug));
                    assert(spec_shape_eq(g0.nodes[eg_id as int].ug, self.nodes[eg_id as int].ug));
                    if spec_osc_kind(g0.nodes[osc_id as int].ug) && spec_eg_active(
                        g0.nodes[eg_id as int].ug,
                    ) && spec_no_eg_interference(g0, id as int, eg_id as int) {
                        assert(spec_eg_step_under(g0, *old(self), id as int, eg_id as int));
                        if spec_eg_active(self.nodes[eg_id as int].ug) != spec_eg_active(
                            g0.nodes[eg_id as int].ug,
                        ) {
                            let (w, kk3) = choose|w: int, kk3: int|
                                0 <= w < g0.nodes.len() && 0 <= kk3 < spec_edges(
                                    g0.nodes[id as int].ug,
                                ).len() && spec_oneshot_holding(#[trigger] g0.nodes[w].ug, eg_id as int)
                                    && #[trigger] crate::walk::reach(
                                    g0,
                                    spec_edges(g0.nodes[id as int].ug)[kk3] as int,
                                    w,
                                );
                            assert(false);
                        }
                        assert(spec_eg_active(self.nodes[eg_id as int].ug));
                        assert(spec_osc_kind(self.nodes[osc_id as int].ug));
                        assert(gate);
                        assert(active);
                    }
                    if !(spec_osc_kind(g0.nodes[osc_id as int].ug) && spec_eg_active(
                        g0.nodes[eg_id as int].ug,
                    )) {
                        if spec_osc_kind(g0.nodes[osc_id as int].ug) {
                            if g0.nodes[eg_id as int].ug matches UG::Adsr { .. } {
                                assert(spec_eg_step_ok(g0, *old(self), id as int, eg_id as int));
                                assert(!spec_eg_active(self.nodes[eg_id as int].ug));
                            } else {
                                assert(!gate);
                            }
                        } else {
                            assert(!gate);
                        }
                        assert(!active);
                    }
                }
                let s: Signal;
                if active {
                    let v = vals[0].l;
                    proof {
                        assert(cs[0] == osc_id);
                        assert((osc_id as int) < self.nodes.len());
                        assert(v == old(self).nodes[osc_id as int].last_sig.l);
                    }
                    if fp.ge(ph0, ONE_BITS) {
                        let ghost sa = *self;
                        self.set_ph(osc_id, ZERO_BITS);
                        proof {
                            assert forall|j: int|
                                0 <= j < sa.nodes.len() implies ((#[trigger] spec_eg_active(self.nodes[j].ug))
                                == spec_eg_active(sa.nodes[j].ug) || (!spec_eg_active(self.nodes[j].ug)
                                && spec_oneshot_holding(g0.nodes[id as int].ug, j))) by {
                                match spec_ph_target(sa, osc_id as int) {
                                    Option::Some(pt) => {
                                        lemma_ph_target_reach(sa, osc_id as int);
                                        if j != pt {
                                            assert(self.nodes[j] == sa.nodes[j]);
                                        } else {
                                            assert(spec_is_plain_osc(sa.nodes[pt].ug));
                                            assert(self.nodes@ == sa.nodes@.update(
                                                pt,
                                                spec_with_ph(sa.nodes[pt], ZERO_BITS),
                                            ));
                                            assert(!spec_eg_active(self.nodes[j].ug));
                                            assert(!spec_eg_active(sa.nodes[j].ug));
                                        }
                                    },
                                    Option::None => {
                                        assert(*self == sa);
                                    },
                                }
                            }
                            lemma_eval_mid_state_change(g0, sa, *self, id as int, 0, tick);
                        }
                        let ghost sb = *self;
                        self.set_state(eg_id, ADSR::Off, 0);
                        proof {
                            assert forall|j: int|
                                0 <= j < sb.nodes.len() && !crate::walk::reach(
                                    sb,
                                    eg_id as int,
                                    j,
                                ) implies self.nodes[j] == #[trigger] sb.nodes[j] by {
                                if j != eg_id {
                                } else {
                                    assert(crate::walk::reach(sb, eg_id as int, j));
                                }
                            }
                            assert forall|j: int|
                                0 <= j < sb.nodes.len() implies ((#[trigger] spec_eg_active(self.nodes[j].ug))
                                == spec_eg_active(sb.nodes[j].ug) || (!spec_eg_active(self.nodes[j].ug)
                                && spec_oneshot_holding(g0.nodes[id as int].ug, j))) by {
                                if j != eg_id {
                                    assert(self.nodes[j] == sb.nodes[j]);
                                } else {
                                    match sb.nodes[eg_id as int].ug {
                                        UG::Adsr { .. } => {
                                            assert(!spec_eg_active(self.nodes[j].ug));
                                        },
                                        _ => {
                                            assert(*self == sb);
                                        },
                                    }
                                }
                            }
                            lemma_eval_mid_state_change(g0, sb, *self, id as int, 1, tick);
                            assert((osc_id as int) < sa.nodes.len());
                            assert(sb.nodes[osc_id as int].last_tick == sa.nodes[
                                osc_id as int
                            ].last_tick);
                            assert(sb.nodes[osc_id as int].last_sig == sa.nodes[
                                osc_id as int
                            ].last_sig);
                            assert(self.nodes[osc_id as int].last_tick == sb.nodes[
                                osc_id as int
                            ].last_tick);
                            assert(self.nodes[osc_id as int].last_sig == sb.nodes[
                                osc_id as int
                            ].last_sig);
                            assert(self.nodes[osc_id as int].last_sig == sa.nodes[
                                osc_id as int
                            ].last_sig);
                        }
                    }
                    s = Signal { l: v, r: v };
                    proof {
                        assert(s.l == self.nodes[osc_id as int].last_sig.l);
                    }
                } else {
                    let ghost sa = *self;
                    self.set_ph(osc_id, ZERO_BITS);
                    proof {
                        assert forall|j: int|
                            0 <= j < sa.nodes.len() implies ((#[trigger] spec_eg_active(self.nodes[j].ug))
                            == spec_eg_active(sa.nodes[j].ug) || (!spec_eg_active(self.nodes[j].ug)
                            && spec_oneshot_holding(g0.nodes[id as int].ug, j))) by {
                            match spec_ph_target(sa, osc_id as int) {
                                Option::Some(pt) => {
                                    lemma_ph_target_reach(sa, osc_id as int);
                                    if j != pt {
                                        assert(self.nodes[j] == sa.nodes[j]);
                                    } else {
                                        assert(spec_is_plain_osc(sa.nodes[pt].ug));
                                        assert(self.nodes@ == sa.nodes@.update(
                                            pt,
                                            spec_with_ph(sa.nodes[pt], ZERO_BITS),
                                        ));
                                        assert(!spec_eg_active(self.nodes[j].ug));
                                        assert(!spec_eg_active(sa.nodes[j].ug));
                                    }
                                },
                                Option::None => {
                                    assert(*self == sa);
                                },
                            }
                        }
                        lemma_eval_mid_state_change(g0, sa, *self, id as int, 0, tick);
                    }
                    let ghost sb = *self;
                    self.set_state(eg_id, ADSR::Off, 0);
                    proof {
                        assert forall|j: int|
                            0 <= j < sb.nodes.len() && !crate::walk::reach(
                                sb,
                                eg_id as int,
                                j,
                            ) implies self.nodes[j] == #[trigger] sb.nodes[j] by {
                            if j != eg_id {
                            } else {
                                assert(crate::walk::reach(sb, eg_id as int, j));
                            }
                        }
                        assert forall|j: int|
                            0 <= j < sb.nodes.len() implies ((#[trigger] spec_eg_active(self.nodes[j].ug))
                            == spec_eg_active(sb.nodes[j].ug) || (!spec_eg_active(self.nodes[j].ug)
                            && spec_oneshot_holding(g0.nodes[id as int].ug, j))) by {
                            if j != eg_id {
                                assert(self.nodes[j] == sb.nodes[j]);
                            } else {
                                match sb.nodes[eg_id as int].ug {
                                    UG::Adsr { .. } => {
                                        assert(!spec_eg_active(self.nodes[j].ug));
                                    },
                                    _ => {
                                        assert(*self == sb);
                                    },
                                }
                            }
                        }
                        lemma_eval_mid_state_change(g0, sb, *self, id as int, 1, tick);
                        // the oscillator chain's phase accumulator is zeroed
                        lemma_ph_target_reach(sa, osc_id as int);
                        assert(same_shape(sa, *self)) by {
                            lemma_same_shape_trans(sa, sb, *self);
                        }
                        lemma_ph_target_shape(sa, *self, osc_id as int);
                        match spec_ph_target(sa, osc_id as int) {
                            Option::Some(pt) => {
                                assert(sb.nodes@ == sa.nodes@.update(
                                    pt,
                                    spec_with_ph(sa.nodes[pt], ZERO_BITS),
                                ));
                                assert(spec_is_plain_osc(sa.nodes[pt].ug));
                                assert(spec_ph_field(sb.nodes[pt].ug) == ZERO_BITS);
                                assert(spec_is_plain_osc(sb.nodes[pt].ug));
                                // the envelope write cannot land on an oscillator
                                if self.nodes[pt] != sb.nodes[pt] {
                                    assert(pt == eg_id as int);
                                    assert(sb.nodes[pt].ug matches UG::Adsr { .. });
                                    assert(false);
                                }
                                assert(spec_ph_field(self.nodes[pt].ug) == ZERO_BITS);
                            },
                            Option::None => {},
                        }
                        // the envelope is forced off with its timer cleared
                        match g0.nodes[eg_id as int].ug {
                            UG::Adsr { a: a0, d: d0, s: s0, r: r0, .. } => {
                                assert(spec_shape_eq(
                                    g0.nodes[eg_id as int].ug,
                                    sa.nodes[eg_id as int].ug,
                                ));
                                assert(sb.nodes[eg_id as int].ug == sa.nodes[eg_id as int].ug) by {
                                    if sb.nodes[eg_id as int] != sa.nodes[eg_id as int] {
                                        match spec_ph_target(sa, osc_id as int) {
                                            Option::Some(pt) => {
                                                assert(pt == eg_id as int);
                                                assert(spec_is_plain_osc(sa.nodes[pt].ug));
                                                assert(false);
                                            },
                                            Option::None => {
                                                assert(false);
                                            },
                                        }
                                    }
                                }
                                assert(self.nodes[eg_id as int].ug == (UG::Adsr {
                                    a: a0,
                                    d: d0,
                                    s: s0,
                                    r: r0,
                                    state: ADSR::Off,
                                    eplaced: 0,
                                }));
                            },
                            _ => {},
                        }
                    }
                    s = zero_signal();
                }
                let ghost sj = *self;
                proof {
                    assert forall|i2: int|
                        0 <= i2 < spec_edges(g0.nodes[id as int].ug).len() implies ticked(
                        *self,
                        #[trigger] spec_edges(g0.nodes[id as int].ug)[i2] as int,
                        tick,
                    ) by {
                        assert(wf_node(g0, id as int));
                        assert(edge_ok(g0, id as int, spec_edges(g0.nodes[id as int].ug)[i2]));
                        assert(ticked(
                            after_kids,
                            spec_edges(g0.nodes[id as int].ug)[i2] as int,
                            tick,
                        ));
                    }
                    assert(kids_ticked(g0, *self, id as int, tick));
                }
                self.store_sig(id, s, Ghost(g0), Ghost(tick));
                proof {
                    // the write of this node's output leaves the children
                    // and the phase chain as the gating step left them
                    assert(same_shape(sj, *self)) by {
                        assert forall|i: int|
                            0 <= i < sj.nodes.len() implies #[trigger] sj.nodes[i].id
                            == self.nodes[i].id && spec_shape_eq(
                            sj.nodes[i].ug,
                            self.nodes[i].ug,
                        ) by {
                            if i != id {
                                assert(self.nodes[i] == sj.nodes[i]);
                            }
                        }
                    }
                    lemma_ph_target_shape(sj, *self, osc_id as int);
                    lemma_ph_target_reach(sj, osc_id as int);
                    match spec_ph_target(sj, osc_id as int) {
                        Option::Some(pt) => {
                            lemma_same_shape_reach(g0, sj, osc_id as int, pt);
                            lemma_reach_rank(g0, osc_id as int, pt);
                            assert(pt != id);
                            assert(self.nodes[pt] == sj.nodes[pt]);
                        },
                        Option::None => {},
                    }
                    assert(osc_id as int != id);
                    assert(eg_id as int != id);
                    assert(self.nodes[osc_id as int].last_sig == sj.nodes[osc_id as int].last_sig);
                    assert(self.nodes[eg_id as int].ug == sj.nodes[eg_id as int].ug);
                    assert(spec_variant_post(g0, *self, id as int, s));
                }
                s
            },
            UG::Adsr { a, d, s, r, state, eplaced } => {
                let (pa, pd, ps, pr) = (*a, *d, *s, *r);
                let (st, el) = (*state, *eplaced);
                proof {
                    assert(cs.len() == 4);
                }
                let sr_f = fp.of_int(t.sample_rate as u64);
                let next_el: u64 = if el < u64::MAX {
                    el + 1
                } else {
                    el
                };
                let out_bits: u64;
                let new_state: ADSR;
                let new_el: u64;
                match st {
                    ADSR::Attack => {
                        let span = fp.mul(sr_f, vals[0].l);
                        let span_n = fp.to_int(span);
                        if el >= span_n {
                            out_bits = ONE_BITS;
                            new_state = ADSR::Decay;
                            new_el = 0;
                        } else {
                            let el_f = fp.of_int(el);
                            let span_f = fp.of_int(span_n);
                            out_bits = fp.div(el_f, span_f);
                            new_state = ADSR::Attack;
                            new_el = next_el;
                        }
                    },
                    ADSR::Decay => {
                        let span = fp.mul(sr_f, vals[1].l);
                        let span_n = fp.to_int(span);
                        if el >= span_n {
                            out_bits = vals[2].l;
                            new_state = ADSR::Sustin;
                            new_el = 0;
                        } else {
                            let el_f = fp.of_int(el);
                            let span_f = fp.of_int(span_n);
                            let frac = fp.div(el_f, span_f);
                            let drop = fp.sub(vals[2].l, ONE_BITS);
                            let scaled = fp.mul(drop, frac);
                            out_bits = fp.add(ONE_BITS, scaled);
                            new_state = ADSR::Decay;
                            new_el = next_el;
                        }
                    },
                    ADSR::Sustin => {
                        out_bits = vals[2].l;
                        new_state = ADSR::Sustin;
                        new_el = next_el;
                    },
                    ADSR::Release => {
                        let span = fp.mul(sr_f, vals[3].l);
                        let span_n = fp.to_int(span);
                        if el >= span_n {
                            out_bits = ZERO_BITS;
                            new_state = ADSR::Off;
                            new_el = 0;
                        } else {
                            let el_f = fp.of_int(el);
                            let span_f = fp.of_int(span_n);
                            let frac = fp.div(el_f, span_f);
                            let rest = fp.sub(ONE_BITS, frac);
                            out_bits = fp.mul(vals[2].l, rest);
                            new_state = ADSR::Release;
                            new_el = next_el;
                        }
                    },
                    ADSR::Off => {
                        out_bits = ZERO_BITS;
                        new_state = ADSR::Off;
                        new_el = 0;
                    },
                }
                self.set_node_ug(
                    id,
                    UG::Adsr { a: pa, d: pd, s: ps, r: pr, state: new_state, eplaced: new_el },
                    Ghost(g0),
                    Ghost(tick),
                );
                let sg = Signal { l: out_bits, r: out_bits };
                self.store_sig(id, sg, Ghost(g0), Ghost(tick));
                proof {
                    assert(wf_node(g0, id as int));
                    assert(edge_ok(g0, id as int, cs[2]));
                    assert(cs[2] as int != id);
                    assert(self.nodes[cs[2] as int].last_sig == after_kids.nodes[cs[2] as int].last_sig);
                    assert(spec_variant_post(g0, *self, id as int, sg));
                }
                sg
            },
            UG::Lpf { freq, q, src, in0, in1, out0, out1 } => {
                let (pf, pq, psrc) = (*freq, *q, *src);
                let (h_in0, h_in1, h_out0, h_out1) = (*in0, *in1, *out0, *out1);
                proof {
                    assert(cs.len() == 3);
                }
                let f = vals[0].l;
                let qv = vals[1].l;
                let src_sig = vals[2];
                let sr_f = fp.of_int(t.sample_rate as u64);
                let wnum = fp.mul(TWO_PI_BITS, f);
                let w = fp.div(wnum, sr_f);
                let sw = fp.sin(w);
                let cw = fp.cos(w);
                let q2 = fp.mul(TWO_BITS, qv);
                let al = fp.div(sw, q2);
                let one_cw = fp.sub(ONE_BITS, cw);
                let b0 = fp.div(one_cw, TWO_BITS);
                let b1 = one_cw;
                let b2 = b0;
                let a0 = fp.add(ONE_BITS, al);
                let a1 = fp.mul(NEG_TWO_BITS, cw);
                let a2 = fp.sub(ONE_BITS, al);
                let l = biquad_step(
                    fp,
                    src_sig.l,
                    h_in0.l,
                    h_in1.l,
                    h_out0.l,
                    h_out1.l,
                    b0,
                    b1,
                    b2,
                    a0,
                    a1,
                    a2,
                );
                let r = biquad_step(
                    fp,
                    src_sig.r,
                    h_in0.r,
                    h_in1.r,
                    h_out0.r,
                    h_out1.r,
                    b0,
                    b1,
                    b2,
                    a0,
                    a1,
                    a2,
                );
                let outs = Signal { l, r };
                self.set_node_ug(
                    id,
                    UG::Lpf {
                        freq: pf,
                        q: pq,
                        src: psrc,
                        in0: src_sig,
                        in1: h_in0,
                        out0: outs,
                        out1: h_out0,
                    },
                    Ghost(g0),
                    Ghost(tick),
                );
                self.store_sig(id, outs, Ghost(g0), Ghost(tick));
                proof {
                    assert(wf_node(g0, id as int));
                    assert(edge_ok(g0, id as int, cs[2]));
                    assert(cs[2] as int != id);
                    assert(self.nodes[cs[2] as int].last_sig == after_kids.nodes[cs[2] as int].last_sig);
                    assert(spec_variant_post(g0, *self, id as int, outs));
                }
                outs
            },
            UG::Delay { .. } => {
                proof {
                    assert(cs.len() == 4);
                }
                let src_sig = vals[3];
                let dtime = vals[0].l;
                let fbv = vals[1].l;
                let mixv = vals[2].l;
                let sr_f = fp.of_int(t.sample_rate as u64);
                let dprod = fp.mul(sr_f, dtime);
                let dt = fp.to_int(dprod);
                let ghost sa = *self;
                let mut tmp: UG = UG::Mix { sources: Vec::new() };
                core::mem::swap(&mut tmp, &mut self.nodes[id].ug);
                let s: Signal;
                match tmp {
                    UG::Delay { time, feedback, mix, src, mut buffer, head } => {
                        let len = buffer.len();
                        let mut new_head = head;
                        if len > 0 && head < len {
                            new_head = if head == 0 {
                                len - 1
                            } else {
                                head - 1
                            };
                            buffer.set(new_head, src_sig);
                        }
                        let mut dl = ZERO_BITS;
                        let mut dr = ZERO_BITS;
                        if dt != 0 && len > 0 && new_head < len {
                            let bound: u64 = ((len - 1) as u64) / dt;
                            let mut n: u64 = 1;
                            while n <= bound
                                invariant
                                    dt != 0,
                                    bound == ((len - 1) as u64) / dt,
                                    len == buffer@.len(),
                                    0 < len,
                                    new_head < len,
                                    1 <= n,
                                decreases bound + 1 - n,
                            {
                                proof {
                                    assert(n * dt <= bound * dt) by (nonlinear_arith)
                                        requires
                                            n <= bound,
                                            dt > 0,
                                    ;
                                    assert(bound * dt <= (len - 1) as u64) by (nonlinear_arith)
                                        requires
                                            bound == ((len - 1) as u64) / dt,
                                            dt > 0,
                                    ;
                                }
                                let idx: u64 = n * dt;
                                let step: usize = idx as usize;
                                let pos: usize = if step < len - new_head {
                                    new_head + step
                                } else {
                                    step - (len - new_head)
                                };
                                let cell = buffer[pos];
                                let nn: i32 = #[verifier::truncate] (n as i32);
                                let fbr = fp.powi(fbv, nn);
                                let ml = fp.mul(cell.l, fbr);
                                dl = fp.add(dl, ml);
                                let mr = fp.mul(cell.r, fbr);
                                dr = fp.add(dr, mr);
                                n = n + 1;
                            }
                        }
                        let wl = fp.mul(dl, mixv);
                        let wr = fp.mul(dr, mixv);
                        let ol = fp.add(src_sig.l, wl);
                        let or = fp.add(src_sig.r, wr);
                        s = Signal { l: ol, r: or };
                        self.nodes[id].ug = UG::Delay {
                            time,
                            feedback,
                            mix,
                            src,
                            buffer,
                            head: new_head,
                        };
                    },
                    _ => {
                        proof {
                            assert(false);
                        }
                        s = zero_signal();
                    },
                }
                proof {
                    assert(same_shape(sa, *self)) by {
                        assert forall|i: int|
                            0 <= i < sa.nodes.len() implies #[trigger] spec_shape_eq(
                            sa.nodes[i].ug,
                            self.nodes[i].ug,
                        ) by {
                            if i != id {
                                assert(self.nodes[i] == sa.nodes[i]);
                            }
                        }
                    }
                    lemma_same_shape_trans(g0, sa, *self);
                    lemma_same_shape_wf(g0, *self);
                    assert forall|j: int|
                        0 <= j < sa.nodes.len() implies #[trigger] self.nodes[j].last_tick
                        == sa.nodes[j].last_tick by {
                        if j != id {
                            assert(self.nodes[j] == sa.nodes[j]);
                        }
                    }
                    assert forall|j: int|
                        0 <= j < g0.nodes.len() && j != id && !ticked(g0, j, tick)
                            && #[trigger] ticked(*self, j, tick) implies ticked_closed(
                        *self,
                        j,
                        tick,
                    ) by {
                        assert(self.nodes[j] == sa.nodes[j]);
                        assert(ticked(sa, j, tick));
                        assert(ticked_closed(sa, j, tick));
                        assert forall|kx: int|
                            0 <= kx < spec_edges(self.nodes[j].ug).len() implies ticked(
                            *self,
                            #[trigger] spec_edges(self.nodes[j].ug)[kx] as int,
                            tick,
                        ) by {
                            let e = spec_edges(sa.nodes[j].ug)[kx] as int;
                            assert(ticked(sa, e, tick));
                            assert(wf_node(sa, j));
                            assert(edge_ok(sa, j, spec_edges(sa.nodes[j].ug)[kx]));
                            if e != id {
                                assert(self.nodes[e] == sa.nodes[e]);
                            }
                        }
                    }
                    assert forall|j: int|
                        0 <= j < g0.nodes.len() && j != id implies #[trigger] spec_eg_step_ok(
                        g0,
                        *self,
                        id as int,
                        j,
                    ) by {
                        assert(self.nodes[j] == sa.nodes[j]);
                        assert(spec_eg_step_ok(g0, sa, id as int, j));
                    }
                    assert forall|j: int|
                        0 <= j < g0.nodes.len() && j != id && !ticked(g0, j, tick)
                            && #[trigger] ticked(*self, j, tick) implies spec_cache_post(
                        g0.nodes[j].ug,
                        self.nodes[j],
                    ) by {
                        assert(self.nodes[j] == sa.nodes[j]);
                        assert(ticked(sa, j, tick));
                    }
                    assert(eval_mid(g0, *self, id as int, tick));
                    assert forall|i2: int|
                        0 <= i2 < spec_edges(g0.nodes[id as int].ug).len() implies ticked(
                        *self,
                        #[trigger] spec_edges(g0.nodes[id as int].ug)[i2] as int,
                        tick,
                    ) by {
                        assert(wf_node(g0, id as int));
                        assert(edge_ok(g0, id as int, spec_edges(g0.nodes[id as int].ug)[i2]));
                        assert(ticked(sa, spec_edges(g0.nodes[id as int].ug)[i2] as int, tick));
                    }
                    assert(kids_ticked(g0, *self, id as int, tick));
                }
                self.store_sig(id, s, Ghost(g0), Ghost(tick));
                proof {
                    assert(wf_node(g0, id as int));
                    assert(edge_ok(g0, id as int, cs[3]));
                    assert(cs[3] as int != id);
                    assert(self.nodes[cs[3] as int].last_sig == after_kids.nodes[cs[3] as int].last_sig);
                    assert(spec_variant_post(g0, *self, id as int, s));
                }
                s
            },
        };
        out
    }

    /// Whether the two children of a one-shot are an oscillator and an
    /// envelope generator, the only configuration it gates.
    fn both_osc_eg(&self, osc: usize, eg: usize) -> (b: bool)
        requires
            osc < self.nodes.len(),
            eg < self.nodes.len(),
        ensures
            b == (spec_osc_kind(self.nodes[osc as int].ug) && (self.nodes[eg as int].ug
                matches UG::Adsr { .. })),
    {
        let o = match &self.nodes[osc].ug {
            UG::Sine { .. } => true,
            UG::Tri { .. } => true,
            UG::Saw { .. } => true,
            UG::Pulse { .. } => true,
            UG::Rand { .. } => true,
            UG::Phase { .. } => true,
            UG::WaveTable { .. } => true,
            UG::OneshotOsc { .. } => true,
            _ => false,
        };
        let e = match &self.nodes[eg].ug {
            UG::Adsr { .. } => true,
            _ => false,
        };
        o && e
    }
}

/// One channel of the low-pass biquad recurrence, evaluated with the
/// host arithmetic in the written operation order.
fn biquad_step<F: Fp>(
    fp: &mut F,
    v: u64,
    in0: u64,
    in1: u64,
    out0: u64,
    out1: u64,
    b0: u64,
    b1: u64,
    b2: u64,
    a0: u64,
    a1: u64,
    a2: u64,
) -> u64 {
    let c0 = fp.div(b0, a0);
    let t0 = fp.mul(c0, v);
    let c1 = fp.div(b1, a0);
    let t1 = fp.mul(c1, in0);
    let c2 = fp.div(b2, a0);
    let t2 = fp.mul(c2, in1);
    let c3 = fp.div(a1, a0);
    let t3 = fp.mul(c3, out0);
    let c4 = fp.div(a2, a0);
    let t4 = fp.mul(c4, out1);
    let s1 = fp.add(t0, t1);
    let s2 = fp.add(s1, t2);
    let s3 = fp.sub(s2, t3);
    fp.sub(s3, t4)
}


/// One frame of the sound system: evaluate the root for the current
/// tick, then advance the transport by one sample.  The tick grows by
/// exactly one and the returned sample is the root's memoized output
/// for the tick that was just played.
pub fn next_frame<F: Fp>(g: &mut Graph, root: usize, t: &mut Transport, fp: &mut F) -> (sig:
    Signal)
    requires
        wf(*old(g)),
        root < old(g).nodes.len(),
        old(t).tick < u64::MAX,
    ensures
        wf(*final(g)),
        same_shape(*old(g), *final(g)),
        final(t).tick == old(t).tick + 1,
        final(t).sample_rate == old(t).sample_rate,
        final(t).bpm == old(t).bpm,
        final(t).measure == old(t).measure,
        ticked(*final(g), root as int, old(t).tick),
        sig == final(g).nodes[root as int].last_sig,
    {
    let sig = g.proc(root, t, fp);
    t.inc(fp);
    sig
}

impl Graph {
    /// A wavetable oscillator whose table is sampled from an existing
    /// oscillator: the oscillator is evaluated for 256 ticks of a local
    /// transport running at 128 samples per second (so two cycles of a
    /// 1 Hz wave fill the table), and the captured samples become a new
    /// table leaf feeding a new wavetable node, whose index is
    /// returned.
    pub fn wavetable_from_osc<F: Fp>(&mut self, osc: usize, ph: usize, t: &Transport, fp: &mut F) -> (
        id: usize)
        requires
            wf(*old(self)),
            osc < old(self).nodes.len(),
            ph < old(self).nodes.len(),
            old(self).nodes.len() + 2 <= usize::MAX,
        ensures
            wf(*final(self)),
            final(self).nodes.len() == old(self).nodes.len() + 2,
            id == old(self).nodes.len() + 1,
            (final(self).nodes[id as int].ug matches UG::WaveTable { table, ph: p } && table
                == old(self).nodes.len() && p == ph),
            (final(self).nodes[id as int - 1].ug matches UG::Tab(data) && data@.len() == 256),
            forall|i: int|
                0 <= i < old(self).nodes.len() ==> #[trigger] final(self).nodes[i].id == old(
                    self,
                ).nodes[i].id && spec_shape_eq(old(self).nodes[i].ug, final(self).nodes[i].ug),
    {
        let ghost g_in = *self;
        let mut local = Transport::new(128, t.bpm.clone(), t.measure);
        let mut bits: Vec<NumLit> = Vec::new();
        let mut i: usize = 0;
        while i < 256
            invariant
                i <= 256,
                bits@.len() == i,
                local.tick == i,
                wf(*self),
                same_shape(g_in, *self),
                osc < g_in.nodes.len(),
                ph < g_in.nodes.len(),
                g_in.nodes.len() + 2 <= usize::MAX,
            decreases 256 - i,
        {
            let ghost s1 = *self;
            let v = self.proc(osc, &local, fp);
            local.inc(fp);
            let text = fp.format_num(v.l);
            bits.push(NumLit { bits: v.l, text });
            proof {
                lemma_same_shape_trans(g_in, s1, *self);
            }
            i = i + 1;
        }
        let ghost s_loop = *self;
        let tab_id = self.tab(bits);
        let ghost s2 = *self;
        let wt_id = self.wavetable(tab_id, ph);
        proof {
            assert forall|j: int|
                0 <= j < g_in.nodes.len() implies #[trigger] self.nodes[j].id == g_in.nodes[j].id
                && spec_shape_eq(g_in.nodes[j].ug, self.nodes[j].ug) by {
                assert(s2.nodes[j] == s_loop.nodes[j]);
                assert(self.nodes[j] == s2.nodes[j]);
                assert(spec_shape_eq(g_in.nodes[j].ug, s_loop.nodes[j].ug));
            }
        }
        wt_id
    }
}


/// The delay's ring buffer never changes length: any operation that
/// preserves node shapes, evaluation included, leaves it exactly as
/// long as the two seconds of audio it was built with.
pub proof fn lemma_delay_buffer_bound(g1: Graph, g2: Graph, id: int)
    requires
        same_shape(g1, g2),
        0 <= id < g1.nodes.len(),
        g1.nodes[id].ug matches UG::Delay { .. },
    ensures
        g2.nodes[id].ug matches UG::Delay { .. },
        (match (g1.nodes[id].ug, g2.nodes[id].ug) {
            (UG::Delay { buffer: b1, .. }, UG::Delay { buffer: b2, .. }) => b1@.len()
                == b2@.len(),
            _ => true,
        }),
{
    assert(spec_shape_eq(g1.nodes[id].ug, g2.nodes[id].ug));
}


/// The frequency edge a variant carries, where it has one.
pub open spec fn spec_freq_edge(u: UG) -> Option<usize> {
    match u {
        UG::Sine { freq, .. } => Some(freq),
        UG::Tri { freq, .. } => Some(freq),
        UG::Saw { freq, .. } => Some(freq),
        UG::Pulse { freq, .. } => Some(freq),
        UG::Rand { freq, .. } => Some(freq),
        _ => None,
    }
}

/// The node a frequency read of node `id` lands on: the node itself
/// for the plain oscillators, the wrapped oscillator for a one-shot,
/// and none for anything else (which reads as a fresh zero constant).
pub open spec fn spec_freq_get_target(g: Graph, id: int) -> Option<int>
    decreases spec_rank(g, id),
{
    if !(0 <= id < g.nodes.len()) {
        None
    } else {
        match g.nodes[id].ug {
            UG::Sine { .. } => Some(id),
            UG::Tri { .. } => Some(id),
            UG::Saw { .. } => Some(id),
            UG::Pulse { .. } => Some(id),
            UG::OneshotOsc { osc, .. } => if edge_ok(g, id, osc) {
                spec_freq_get_target(g, osc as int)
            } else {
                None
            },
            _ => None,
        }
    }
}

/// The node a frequency write of node `id` lands on: the plain
/// oscillators and the random source hold their own, and the wrappers
/// delegate to the oscillator they wrap.
pub open spec fn spec_freq_set_target(g: Graph, id: int) -> Option<int>
    decreases spec_rank(g, id),
{
    if !(0 <= id < g.nodes.len()) {
        None
    } else {
        match g.nodes[id].ug {
            UG::Sine { .. } => Some(id),
            UG::Tri { .. } => Some(id),
            UG::Saw { .. } => Some(id),
            UG::Pulse { .. } => Some(id),
            UG::Rand { .. } => Some(id),
            UG::Phase { osc } => if edge_ok(g, id, osc) {
                spec_freq_set_target(g, osc as int)
            } else {
                None
            },
            UG::WaveTable { ph, .. } => if edge_ok(g, id, ph) {
                spec_freq_set_target(g, ph as int)
            } else {
                None
            },
            UG::OneshotOsc { osc, .. } => if edge_ok(g, id, osc) {
                spec_freq_set_target(g, osc as int)
            } else {
                None
            },
            _ => None,
        }
    }
}

/// `n` with its frequency edge pointed at `e` (unchanged where it has
/// none).
pub open spec fn spec_with_freq(n: UGen, e: usize) -> UGen {
    UGen {
        id: n.id,
        last_tick: n.last_tick,
        last_sig: n.last_sig,
        ug: match n.ug {
            UG::Sine { init_ph, ph, .. } => UG::Sine { init_ph, freq: e, ph },
            UG::Tri { init_ph, ph, .. } => UG::Tri { init_ph, freq: e, ph },
            UG::Saw { init_ph, ph, .. } => UG::Saw { init_ph, freq: e, ph },
            UG::Pulse { init_ph, duty, ph, .. } => UG::Pulse { init_ph, freq: e, duty, ph },
            UG::Rand { count, v, .. } => UG::Rand { freq: e, count, v },
            _ => n.ug,
        },
    }
}

impl Graph {
    /// The frequency parameter behind an oscillator node: its node
    /// index for the plain oscillators and the random source, the
    /// wrapped oscillator's frequency for a one-shot, and a fresh zero
    /// constant for anything that has no frequency of its own.
    pub fn get_freq(&mut self, id: usize) -> (r: usize)
        requires
            wf(*old(self)),
            id < old(self).nodes.len(),
            old(self).nodes.len() < usize::MAX,
        ensures
            wf(*final(self)),
            r < final(self).nodes.len(),
            final(self).nodes.len() >= old(self).nodes.len(),
            forall|j: int|
                0 <= j < old(self).nodes.len() ==> final(self).nodes[j] == #[trigger] old(
                    self,
                ).nodes[j],
            (match spec_freq_get_target(*old(self), id as int) {
                Some(t) => *final(self) == *old(self) && Some(r) == spec_freq_edge(
                    old(self).nodes[t].ug,
                ),
                None => {
                    &&& final(self).nodes.len() == old(self).nodes.len() + 1
                    &&& r == old(self).nodes.len()
                    &&& (final(self).nodes[r as int].ug matches UG::Val(lit) && lit.bits
                        == ZERO_BITS && lit.text@ == "0"@)
                },
            }),
        decreases spec_rank(*old(self), id as int),
    {
        match &self.nodes[id].ug {
            UG::Sine { freq, .. } => {
                let f = *freq;
                proof {
                    assert(wf_node(*self, id as int));
                    assert(edge_ok(*self, id as int, spec_edges(self.nodes[id as int].ug)[1]));
                }
                f
            },
            UG::Tri { freq, .. } => {
                let f = *freq;
                proof {
                    assert(wf_node(*self, id as int));
                    assert(edge_ok(*self, id as int, spec_edges(self.nodes[id as int].ug)[1]));
                }
                f
            },
            UG::Saw { freq, .. } => {
                let f = *freq;
                proof {
                    assert(wf_node(*self, id as int));
                    assert(edge_ok(*self, id as int, spec_edges(self.nodes[id as int].ug)[1]));
                }
                f
            },
            UG::Pulse { freq, .. } => {
                let f = *freq;
                proof {
                    assert(wf_node(*self, id as int));
                    assert(edge_ok(*self, id as int, spec_edges(self.nodes[id as int].ug)[1]));
                }
                f
            },
            UG::OneshotOsc { osc, .. } => {
                let c = *osc;
                proof {
                    assert(wf_node(*self, id as int));
                    assert(edge_ok(*self, id as int, spec_edges(self.nodes[id as int].ug)[0]));
                    lemma_edge_rank(*self, id as int, c);
                }
                self.get_freq(c)
            },
            _ => self.val(NumLit { bits: ZERO_BITS, text: String::from_str("0") }),
        }
    }

    /// Point the frequency parameter behind an oscillator node at the
    /// node `freq`.  Oscillators that wrap another oscillator delegate
    /// to it; anything without a frequency is left alone.  To keep the
    /// graph acyclic the new parameter must be a leaf or an older node
    /// than the oscillator that ends up holding it.
    pub fn set_freq(&mut self, id: usize, freq: usize)
        requires
            wf(*old(self)),
            id < old(self).nodes.len(),
            freq < old(self).nodes.len(),
            spec_is_leaf(old(self).nodes[freq as int].ug) || (match spec_freq_set_target(
                *old(self),
                id as int,
            ) {
                Some(tgt) => (freq as int) < tgt,
                None => true,
            }),
        ensures
            wf(*final(self)),
            same_shape_except_edges(*old(self), *final(self)),
            forall|j: int|
                0 <= j < old(self).nodes.len() && !crate::walk::reach(*old(self), id as int, j)
                    ==> final(self).nodes[j] == #[trigger] old(self).nodes[j],
            (match spec_freq_set_target(*old(self), id as int) {
                Some(t) => final(self).nodes@ == old(self).nodes@.update(
                    t,
                    spec_with_freq(old(self).nodes[t], freq),
                ),
                None => *final(self) == *old(self),
            }),
        decreases spec_rank(*old(self), id as int),
    {
        let ghost g0 = *self;
        match &self.nodes[id].ug {
            UG::Sine { .. } => {
                self.set_edge_exec(id, 1, freq);
                proof {
                    assert(self.nodes@ =~= g0.nodes@.update(
                        id as int,
                        spec_with_freq(g0.nodes[id as int], freq),
                    ));
                }
            },
            UG::Tri { .. } => {
                self.set_edge_exec(id, 1, freq);
                proof {
                    assert(self.nodes@ =~= g0.nodes@.update(
                        id as int,
                        spec_with_freq(g0.nodes[id as int], freq),
                    ));
                }
            },
            UG::Saw { .. } => {
                self.set_edge_exec(id, 1, freq);
                proof {
                    assert(self.nodes@ =~= g0.nodes@.update(
                        id as int,
                        spec_with_freq(g0.nodes[id as int], freq),
                    ));
                }
            },
            UG::Pulse { .. } => {
                self.set_edge_exec(id, 1, freq);
                proof {
                    assert(self.nodes@ =~= g0.nodes@.update(
                        id as int,
                        spec_with_freq(g0.nodes[id as int], freq),
                    ));
                }
            },
            UG::Rand { .. } => {
                self.set_edge_exec(id, 0, freq);
                proof {
                    assert(self.nodes@ =~= g0.nodes@.update(
                        id as int,
                        spec_with_freq(g0.nodes[id as int], freq),
                    ));
                }
            },
            UG::Phase { osc } => {
                let c = *osc;
                proof {
                    assert(wf_node(g0, id as int));
                    assert(edge_ok(g0, id as int, spec_edges(g0.nodes[id as int].ug)[0]));
                    lemma_edge_rank(g0, id as int, c);
                }
                self.set_freq(c, freq);
                proof {
                    lemma_set_ph_frame(g0, *self, id as int, 0);
                }
            },
            UG::WaveTable { ph, .. } => {
                let c = *ph;
                proof {
                    assert(wf_node(g0, id as int));
                    assert(edge_ok(g0, id as int, spec_edges(g0.nodes[id as int].ug)[1]));
                    lemma_edge_rank(g0, id as int, c);
                }
                self.set_freq(c, freq);
                proof {
                    lemma_set_ph_frame(g0, *self, id as int, 1);
                }
            },
            UG::OneshotOsc { osc, .. } => {
                let c = *osc;
                proof {
                    assert(wf_node(g0, id as int));
                    assert(edge_ok(g0, id as int, spec_edges(g0.nodes[id as int].ug)[0]));
                    lemma_edge_rank(g0, id as int, c);
                }
                self.set_freq(c, freq);
                proof {
                    lemma_set_ph_frame(g0, *self, id as int, 0);
                }
            },
            _ => {},
        }
    }
}

/// Rewiring keeps the arena's size, every node's kind, memo and
/// identity; only edges of nodes on the rewired path may differ.
pub open spec fn same_shape_except_edges(g1: Graph, g2: Graph) -> bool {
    &&& g1.nodes.len() == g2.nodes.len()
    &&& forall|j: int|
        0 <= j < g1.nodes.len() ==> #[trigger] g2.nodes[j].id == g1.nodes[j].id
            && g2.nodes[j].last_tick == g1.nodes[j].last_tick && g2.nodes[j].last_sig
            == g1.nodes[j].last_sig
}

} // verus!\n