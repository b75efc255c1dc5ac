use vstd::prelude::*;

use crate::event::Message;
use crate::fp::{RAND_INIT_BITS, ZERO_BITS};

verus! {

/// A numeric literal: the bit pattern of a double together with its
/// canonical decimal rendering, which the dump emits verbatim.
#[derive(Debug)]
pub struct NumLit {
    pub bits: u64,
    pub text: String,
}

impl Clone for NumLit {
    fn clone(&self) -> (r: NumLit)
        ensures
            r == *self,
    {
        NumLit { bits: self.bits, text: self.text.clone() }
    }
}

/// One stereo sample: the bit patterns of the left and right channel
/// doubles.
#[derive(Clone, Copy, PartialEq, Eq, Structural, Debug)]
pub struct Signal {
    pub l: u64,
    pub r: u64,
}

/// The silent sample.
pub open spec fn spec_zero_signal() -> Signal {
    Signal { l: ZERO_BITS, r: ZERO_BITS }
}

/// The silent sample.
pub fn zero_signal() -> (s: Signal)
    ensures
        s == spec_zero_signal(),
{
    Signal { l: ZERO_BITS, r: ZERO_BITS }
}

/// The state of an envelope generator.
#[derive(Clone, Copy, PartialEq, Eq, Structural, Debug)]
pub enum ADSR {
    Attack,
    Decay,
    Sustin,
    Release,
    Off,
}

/// The errors of the parameter-reflection operations.
#[derive(Debug)]
pub enum OperateError {
    NotUgen,
    CannotParsePattern(String, String),
    CannotParseNumber(String, String),
    ParamNotFound(String),
    CannotRepresentAsString(String),
}

/// A unit-generator variant: the closed set of signal producers and data
/// carriers a graph node can hold.  Fields of type `usize` are edges:
/// indices of parameter nodes in the same graph.  `ph`, `count`, `v`,
/// the filter and delay histories, and the envelope state are the
/// variant's mutable per-node state.
pub enum UG {
    /// A constant scalar, emitted on both channels.
    Val(NumLit),
    /// A sine oscillator: `sin(init_ph + ph)`.
    Sine { init_ph: usize, freq: usize, ph: u64 },
    /// A triangle oscillator.
    Tri { init_ph: usize, freq: usize, ph: u64 },
    /// A sawtooth oscillator.
    Saw { init_ph: usize, freq: usize, ph: u64 },
    /// A pulse oscillator with a duty-cycle parameter.
    Pulse { init_ph: usize, freq: usize, duty: usize, ph: u64 },
    /// A sample-and-hold random source; `freq` is read as the number of
    /// samples between draws.
    Rand { freq: usize, count: u64, v: u64 },
    /// Maps a bipolar oscillator into `[0.5, 1.5]`:
    /// `1 + 0.5 * clip(x, -1, 1)`.
    Phase { osc: usize },
    /// Reads a table with linear interpolation at a phase in `[0, 1)`.
    WaveTable { table: usize, ph: usize },
    /// Plays an oscillator once, gated by an envelope generator.
    OneshotOsc { osc: usize, eg: usize },
    /// A linear ADSR envelope generator; the parameters are attack,
    /// decay and release times in seconds and the sustain level.
    Adsr { a: usize, d: usize, s: usize, r: usize, state: ADSR, eplaced: u64 },
    /// A low-pass biquad filter with two samples of input and output
    /// history per channel.
    Lpf { freq: usize, q: usize, src: usize, in0: Signal, in1: Signal, out0: Signal, out1: Signal },
    /// A feedback delay over a ring buffer of fixed length; `head` is
    /// the position of the most recent sample.
    Delay {
        time: usize,
        feedback: usize,
        mix: usize,
        src: usize,
        buffer: Vec<Signal>,
        head: usize,
    },
    /// The `+` mixer: sums its sources.
    Mix { sources: Vec<usize> },
    /// A table of numbers; produces silence.
    Tab(Vec<NumLit>),
    /// A note pattern; produces silence.
    Pat(Vec<Message>),
}

/// Whether a variant is a data carrier without parameter edges.
pub open spec fn spec_is_leaf(u: UG) -> bool {
    match u {
        UG::Val(_) => true,
        UG::Tab(_) => true,
        UG::Pat(_) => true,
        _ => false,
    }
}

/// The parameter edges of a variant, in declaration order.
pub open spec fn spec_edges(u: UG) -> Seq<usize> {
    match u {
        UG::Val(_) => seq![],
        UG::Sine { init_ph, freq, .. } => seq![init_ph, freq],
        UG::Tri { init_ph, freq, .. } => seq![init_ph, freq],
        UG::Saw { init_ph, freq, .. } => seq![init_ph, freq],
        UG::Pulse { init_ph, freq, duty, .. } => seq![init_ph, freq, duty],
        UG::Rand { freq, .. } => seq![freq],
        UG::Phase { osc } => seq![osc],
        UG::WaveTable { table, ph } => seq![table, ph],
        UG::OneshotOsc { osc, eg } => seq![osc, eg],
        UG::Adsr { a, d, s, r, .. } => seq![a, d, s, r],
        UG::Lpf { freq, q, src, .. } => seq![freq, q, src],
        UG::Delay { time, feedback, mix, src, .. } => seq![time, feedback, mix, src],
        UG::Mix { sources } => sources@,
        UG::Tab(_) => seq![],
        UG::Pat(_) => seq![],
    }
}

/// The edges the shared-node walker follows.  A random source hides its
/// `freq` parameter from the walker, as its dump inlines it.
pub open spec fn spec_walk_edges(u: UG) -> Seq<usize> {
    match u {
        UG::Rand { .. } => seq![],
        _ => spec_edges(u),
    }
}

/// Whether two variants have the same operator and the same edges (their
/// mutable state may differ).  Data payloads of leaves are part of the
/// shape, as is the length of a delay's ring buffer.
pub open spec fn spec_shape_eq(x: UG, y: UG) -> bool {
    match (x, y) {
        (UG::Val(a), UG::Val(b)) => a == b,
        (
            UG::Sine { init_ph: i1, freq: f1, .. },
            UG::Sine { init_ph: i2, freq: f2, .. },
        ) => i1 == i2 && f1 == f2,
        (UG::Tri { init_ph: i1, freq: f1, .. }, UG::Tri { init_ph: i2, freq: f2, .. }) => i1 == i2
            && f1 == f2,
        (UG::Saw { init_ph: i1, freq: f1, .. }, UG::Saw { init_ph: i2, freq: f2, .. }) => i1 == i2
            && f1 == f2,
        (
            UG::Pulse { init_ph: i1, freq: f1, duty: d1, .. },
            UG::Pulse { init_ph: i2, freq: f2, duty: d2, .. },
        ) => i1 == i2 && f1 == f2 && d1 == d2,
        (UG::Rand { freq: f1, .. }, UG::Rand { freq: f2, .. }) => f1 == f2,
        (UG::Phase { osc: o1 }, UG::Phase { osc: o2 }) => o1 == o2,
        (UG::WaveTable { table: t1, ph: p1 }, UG::WaveTable { table: t2, ph: p2 }) => t1 == t2
            && p1 == p2,
        (UG::OneshotOsc { osc: o1, eg: e1 }, UG::OneshotOsc { osc: o2, eg: e2 }) => o1 == o2 && e1
            == e2,
        (
            UG::Adsr { a: a1, d: d1, s: s1, r: r1, .. },
            UG::Adsr { a: a2, d: d2, s: s2, r: r2, .. },
        ) => a1 == a2 && d1 == d2 && s1 == s2 && r1 == r2,
        (
            UG::Lpf { freq: f1, q: q1, src: s1, .. },
            UG::Lpf { freq: f2, q: q2, src: s2, .. },
        ) => f1 == f2 && q1 == q2 && s1 == s2,
        (
            UG::Delay { time: t1, feedback: fb1, mix: m1, src: s1, buffer: b1, .. },
            UG::Delay { time: t2, feedback: fb2, mix: m2, src: s2, buffer: b2, .. },
        ) => t1 == t2 && fb1 == fb2 && m1 == m2 && s1 == s2 && b1@.len() == b2@.len(),
        (UG::Mix { sources: s1 }, UG::Mix { sources: s2 }) => s1@ == s2@,
        (UG::Tab(a), UG::Tab(b)) => a == b,
        (UG::Pat(a), UG::Pat(b)) => a == b,
        _ => false,
    }
}

/// A graph node: the variant payload behind a per-tick memo.
/// `last_tick` holds the transport tick for which `last_sig` is valid;
/// the sentinel `u64::MAX` means the node has never been evaluated, so
/// the very first evaluation at tick 0 is not mistaken for a cache hit.
pub struct UGen {
    pub id: usize,
    pub last_tick: u64,
    pub last_sig: Signal,
    pub ug: UG,
}

impl UGen {
    /// A fresh, never-evaluated node around `ug`.  Its `id` is assigned
    /// when the node enters a graph.
    pub fn new(ug: UG) -> (n: UGen)
        ensures
            n.id == 0,
            n.last_tick == u64::MAX,
            n.last_sig == spec_zero_signal(),
            n.ug == ug,
    {
        UGen { id: 0, last_tick: u64::MAX, last_sig: zero_signal(), ug }
    }
}

/// A synthesis graph: an arena of nodes.  Edges are indices into
/// `nodes`.  Well-formedness (`wf`) guarantees the graph is acyclic:
/// every edge points either to a leaf or to an older (smaller-indexed)
/// node, so recursion along edges terminates.
pub struct Graph {
    pub nodes: Vec<UGen>,
}

/// Every node carries its own index, and every edge points into the
/// arena, at a leaf or at an older node.
pub open spec fn wf(g: Graph) -> bool {
    forall|i: int|
        0 <= i < g.nodes.len() ==> #[trigger] wf_node(g, i)
}

/// Well-formedness of the node at index `i`.
pub open spec fn wf_node(g: Graph, i: int) -> bool {
    &&& g.nodes[i].id == i
    &&& forall|j: int|
        0 <= j < spec_edges(g.nodes[i].ug).len() ==> edge_ok(
            g,
            i,
            #[trigger] spec_edges(g.nodes[i].ug)[j],
        )
}

/// An edge from node `i` to node `e` is in bounds and acyclic.
pub open spec fn edge_ok(g: Graph, i: int, e: usize) -> bool {
    e < g.nodes.len() && (e < i || spec_is_leaf(g.nodes[e as int].ug))
}

/// The termination measure for recursion along edges: leaves rank 0,
/// anything else one above its index.
pub open spec fn spec_rank(g: Graph, i: int) -> int {
    if spec_is_leaf(g.nodes[i].ug) {
        0
    } else {
        i + 1
    }
}

/// Following an edge strictly decreases the rank.
pub proof fn lemma_edge_rank(g: Graph, i: int, e: usize)
    requires
        wf(g),
        0 <= i < g.nodes.len(),
        edge_ok(g, i, e),
        !spec_is_leaf(g.nodes[i].ug),
    ensures
        0 <= spec_rank(g, e as int) < spec_rank(g, i),
{
}

/// Whether `g2` is `g1` with only node state (memos, phases, histories,
/// envelope state) changed: same length, same ids, same shapes.
pub open spec fn same_shape(g1: Graph, g2: Graph) -> bool {
    &&& g1.nodes.len() == g2.nodes.len()
    &&& forall|i: int| 0 <= i < g1.nodes.len() ==> #[trigger] g2.nodes[i].id == g1.nodes[i].id
    &&& forall|i: int|
        0 <= i < g1.nodes.len() ==> #[trigger] spec_shape_eq(g1.nodes[i].ug, g2.nodes[i].ug)
}

/// Nodes of equal shape have equal edges and equal leafness.
pub proof fn lemma_shape_eq_edges(x: UG, y: UG)
    requires
        spec_shape_eq(x, y),
    ensures
        spec_edges(x) == spec_edges(y),
        spec_walk_edges(x) == spec_walk_edges(y),
        spec_is_leaf(x) == spec_is_leaf(y),
{
}

/// Shape preservation keeps the graph well-formed and the ranks equal.
pub proof fn lemma_same_shape_wf(g1: Graph, g2: Graph)
    requires
        wf(g1),
        same_shape(g1, g2),
    ensures
        wf(g2),
        forall|i: int| 0 <= i < g1.nodes.len() ==> spec_rank(g2, i) == #[trigger] spec_rank(g1, i),
{
    assert forall|i: int| 0 <= i < g2.nodes.len() implies #[trigger] wf_node(g2, i) by {
        assert(wf_node(g1, i));
        assert(spec_shape_eq(g1.nodes[i].ug, g2.nodes[i].ug));
        lemma_shape_eq_edges(g1.nodes[i].ug, g2.nodes[i].ug);
        assert forall|j: int|
            0 <= j < spec_edges(g2.nodes[i].ug).len() implies edge_ok(
            g2,
            i,
            #[trigger] spec_edges(g2.nodes[i].ug)[j],
        ) by {
            let e = spec_edges(g2.nodes[i].ug)[j];
            assert(edge_ok(g1, i, e));
            assert(spec_shape_eq(g1.nodes[e as int].ug, g2.nodes[e as int].ug));
            lemma_shape_eq_edges(g1.nodes[e as int].ug, g2.nodes[e as int].ug);
        }
    }
    assert forall|i: int| 0 <= i < g1.nodes.len() implies spec_rank(g2, i) == #[trigger] spec_rank(
        g1,
        i,
    ) by {
        assert(spec_shape_eq(g1.nodes[i].ug, g2.nodes[i].ug));
        lemma_shape_eq_edges(g1.nodes[i].ug, g2.nodes[i].ug);
    }
}

/// `same_shape` is transitive.
pub proof fn lemma_same_shape_trans(g1: Graph, g2: Graph, g3: Graph)
    requires
        same_shape(g1, g2),
        same_shape(g2, g3),
    ensures
        same_shape(g1, g3),
{
    assert forall|i: int| 0 <= i < g1.nodes.len() implies #[trigger] g3.nodes[i].id
        == g1.nodes[i].id by {
        assert(g2.nodes[i].id == g1.nodes[i].id);
        assert(g3.nodes[i].id == g2.nodes[i].id);
    }
    assert forall|i: int| 0 <= i < g1.nodes.len() implies #[trigger] spec_shape_eq(
        g1.nodes[i].ug,
        g3.nodes[i].ug,
    ) by {
        assert(spec_shape_eq(g1.nodes[i].ug, g2.nodes[i].ug));
        assert(spec_shape_eq(g2.nodes[i].ug, g3.nodes[i].ug));
    }
}

/// What every constructor guarantees: the new node is appended at index
/// `id`, existing nodes are untouched, and the graph stays well-formed.
pub open spec fn appended(g1: Graph, g2: Graph, id: usize, u: UG) -> bool {
    &&& id == g1.nodes.len()
    &&& g2.nodes.len() == g1.nodes.len() + 1
    &&& forall|i: int| 0 <= i < g1.nodes.len() ==> g2.nodes[i] == #[trigger] g1.nodes[i]
    &&& g2.nodes[id as int].ug == u
    &&& g2.nodes[id as int].id == id
    &&& g2.nodes[id as int].last_tick == u64::MAX
    &&& g2.nodes[id as int].last_sig == spec_zero_signal()
}

impl Graph {
    /// The empty graph.
    pub fn new() -> (g: Graph)
        ensures
            g.nodes.len() == 0,
            wf(g),
    {
        Graph { nodes: Vec::new() }
    }

    /// The number of nodes.
    pub fn len(&self) -> (n: usize)
        ensures
            n == self.nodes.len(),
    {
        self.nodes.len()
    }

    /// Append a node holding `ug`.  Requires every edge of `ug` to point
    /// at an existing node, which keeps the graph acyclic.
    pub fn add_node(&mut self, ug: UG) -> (id: usize)
        requires
            wf(*old(self)),
            forall|j: int|
                0 <= j < spec_edges(ug).len() ==> (#[trigger] spec_edges(ug)[j]) < old(
                    self,
                ).nodes.len(),
            old(self).nodes.len() < usize::MAX,
        ensures
            wf(*final(self)),
            appended(*old(self), *final(self), id, ug),
    {
        let id = self.nodes.len();
        let mut n = UGen::new(ug);
        n.id = id;
        self.nodes.push(n);
        proof {
            assert forall|i: int| 0 <= i < self.nodes.len() implies #[trigger] wf_node(
                *self,
                i,
            ) by {
                if i < self.nodes.len() - 1 {
                    assert(wf_node(*old(self), i));
                    assert forall|j: int|
                        0 <= j < spec_edges(self.nodes[i].ug).len() implies edge_ok(
                        *self,
                        i,
                        #[trigger] spec_edges(self.nodes[i].ug)[j],
                    ) by {
                        assert(edge_ok(*old(self), i, spec_edges(self.nodes[i].ug)[j]));
                    }
                }
            }
        }
        id
    }

    /// A constant node (the `Val` leaf).
    pub fn val(&mut self, lit: NumLit) -> (id: usize)
        requires
            wf(*old(self)),
            old(self).nodes.len() < usize::MAX,
        ensures
            wf(*final(self)),
            appended(*old(self), *final(self), id, UG::Val(lit)),
    {
        self.add_node(UG::Val(lit))
    }

    /// The constant payload of a `Val` node, if `id` is one.
    pub fn to_val(&self, id: usize) -> (r: Option<NumLit>)
        requires
            id < self.nodes.len(),
        ensures
            match self.nodes[id as int].ug {
                UG::Val(lit) => r == Some(lit),
                _ => r is None,
            },
    {
        match &self.nodes[id].ug {
            UG::Val(lit) => Some(lit.clone()),
            _ => None,
        }
    }

    /// A sine oscillator node.
    pub fn sine(&mut self, init_ph: usize, freq: usize) -> (id: usize)
        requires
            wf(*old(self)),
            init_ph < old(self).nodes.len(),
            freq < old(self).nodes.len(),
            old(self).nodes.len() < usize::MAX,
        ensures
            wf(*final(self)),
            appended(*old(self), *final(self), id, UG::Sine { init_ph, freq, ph: ZERO_BITS }),
    {
        self.add_node(UG::Sine { init_ph, freq, ph: ZERO_BITS })
    }

    /// A triangle oscillator node.
    pub fn tri(&mut self, init_ph: usize, freq: usize) -> (id: usize)
        requires
            wf(*old(self)),
            init_ph < old(self).nodes.len(),
            freq < old(self).nodes.len(),
            old(self).nodes.len() < usize::MAX,
        ensures
            wf(*final(self)),
            appended(*old(self), *final(self), id, UG::Tri { init_ph, freq, ph: ZERO_BITS }),
    {
        self.add_node(UG::Tri { init_ph, freq, ph: ZERO_BITS })
    }

    /// A sawtooth oscillator node.
    pub fn saw(&mut self, init_ph: usize, freq: usize) -> (id: usize)
        requires
            wf(*old(self)),
            init_ph < old(self).nodes.len(),
            freq < old(self).nodes.len(),
            old(self).nodes.len() < usize::MAX,
        ensures
            wf(*final(self)),
            appended(*old(self), *final(self), id, UG::Saw { init_ph, freq, ph: ZERO_BITS }),
    {
        self.add_node(UG::Saw { init_ph, freq, ph: ZERO_BITS })
    }

    /// A pulse oscillator node.
    pub fn pulse(&mut self, init_ph: usize, freq: usize, duty: usize) -> (id: usize)
        requires
            wf(*old(self)),
            init_ph < old(self).nodes.len(),
            freq < old(self).nodes.len(),
            duty < old(self).nodes.len(),
            old(self).nodes.len() < usize::MAX,
        ensures
            wf(*final(self)),
            appended(
                *old(self),
                *final(self),
                id,
                UG::Pulse { init_ph, freq, duty, ph: ZERO_BITS },
            ),
    {
        self.add_node(UG::Pulse { init_ph, freq, duty, ph: ZERO_BITS })
    }

    /// A sample-and-hold random node.
    pub fn rand(&mut self, freq: usize) -> (id: usize)
        requires
            wf(*old(self)),
            freq < old(self).nodes.len(),
            old(self).nodes.len() < usize::MAX,
        ensures
            wf(*final(self)),
            appended(
                *old(self),
                *final(self),
                id,
                UG::Rand { freq, count: 0, v: RAND_INIT_BITS },
            ),
    {
        self.add_node(UG::Rand { freq, count: 0, v: RAND_INIT_BITS })
    }

    /// A phase shaper node.
    pub fn phase(&mut self, osc: usize) -> (id: usize)
        requires
            wf(*old(self)),
            osc < old(self).nodes.len(),
            old(self).nodes.len() < usize::MAX,
        ensures
            wf(*final(self)),
            appended(*old(self), *final(self), id, UG::Phase { osc }),
    {
        self.add_node(UG::Phase { osc })
    }

    /// A wavetable oscillator over an existing table node.
    pub fn wavetable(&mut self, table: usize, ph: usize) -> (id: usize)
        requires
            wf(*old(self)),
            table < old(self).nodes.len(),
            ph < old(self).nodes.len(),
            old(self).nodes.len() < usize::MAX,
        ensures
            wf(*final(self)),
            appended(*old(self), *final(self), id, UG::WaveTable { table, ph }),
    {
        self.add_node(UG::WaveTable { table, ph })
    }

    /// A one-shot oscillator node.
    pub fn oneshot(&mut self, osc: usize, eg: usize) -> (id: usize)
        requires
            wf(*old(self)),
            osc < old(self).nodes.len(),
            eg < old(self).nodes.len(),
            old(self).nodes.len() < usize::MAX,
        ensures
            wf(*final(self)),
            appended(*old(self), *final(self), id, UG::OneshotOsc { osc, eg }),
    {
        self.add_node(UG::OneshotOsc { osc, eg })
    }

    /// An ADSR envelope node, initially idle.
    pub fn adsr(&mut self, a: usize, d: usize, s: usize, r: usize) -> (id: usize)
        requires
            wf(*old(self)),
            a < old(self).nodes.len(),
            d < old(self).nodes.len(),
            s < old(self).nodes.len(),
            r < old(self).nodes.len(),
            old(self).nodes.len() < usize::MAX,
        ensures
            wf(*final(self)),
            appended(
                *old(self),
                *final(self),
                id,
                UG::Adsr { a, d, s, r, state: ADSR::Off, eplaced: 0 },
            ),
    {
        self.add_node(UG::Adsr { a, d, s, r, state: ADSR::Off, eplaced: 0 })
    }

    /// A low-pass filter node with cleared history.
    pub fn lpf(&mut self, freq: usize, q: usize, src: usize) -> (id: usize)
        requires
            wf(*old(self)),
            freq < old(self).nodes.len(),
            q < old(self).nodes.len(),
            src < old(self).nodes.len(),
            old(self).nodes.len() < usize::MAX,
        ensures
            wf(*final(self)),
            appended(
                *old(self),
                *final(self),
                id,
                UG::Lpf {
                    freq,
                    q,
                    src,
                    in0: spec_zero_signal(),
                    in1: spec_zero_signal(),
                    out0: spec_zero_signal(),
                    out1: spec_zero_signal(),
                },
            ),
    {
        self.add_node(
            UG::Lpf {
                freq,
                q,
                src,
                in0: zero_signal(),
                in1: zero_signal(),
                out0: zero_signal(),
                out1: zero_signal(),
            },
        )
    }

    /// A delay node.  Its ring buffer holds two seconds of silence:
    /// `2 * sample_rate` samples, a length the delay keeps forever.
    pub fn delay(
        &mut self,
        time: usize,
        feedback: usize,
        mix: usize,
        src: usize,
        sample_rate: u32,
    ) -> (id: usize)
        requires
            wf(*old(self)),
            time < old(self).nodes.len(),
            feedback < old(self).nodes.len(),
            mix < old(self).nodes.len(),
            src < old(self).nodes.len(),
            sample_rate <= 0x4000_0000u32,
            old(self).nodes.len() < usize::MAX,
        ensures
            wf(*final(self)),
            id == old(self).nodes.len(),
            final(self).nodes.len() == old(self).nodes.len() + 1,
            forall|i: int| 0 <= i < old(self).nodes.len() ==> final(self).nodes[i] == #[trigger] old(
                self,
            ).nodes[i],
            final(self).nodes[id as int].id == id,
            final(self).nodes[id as int].last_tick == u64::MAX,
            final(self).nodes[id as int].last_sig == spec_zero_signal(),
            match final(self).nodes[id as int].ug {
                UG::Delay { time: t, feedback: f, mix: m, src: s, buffer, head } => {
                    &&& t == time
                    &&& f == feedback
                    &&& m == mix
                    &&& s == src
                    &&& buffer@.len() == 2 * sample_rate
                    &&& head == 0
                    &&& forall|i: int|
                        0 <= i < buffer@.len() ==> #[trigger] buffer@[i] == spec_zero_signal()
                },
                _ => false,
            },
    {
        let len: usize = (sample_rate as usize) * 2;
        let mut buffer: Vec<Signal> = Vec::new();
        let mut k: usize = 0;
        while k < len
            invariant
                k <= len,
                buffer@.len() == k,
                forall|i: int| 0 <= i < k ==> #[trigger] buffer@[i] == spec_zero_signal(),
            decreases len - k,
        {
            buffer.push(zero_signal());
            k = k + 1;
        }
        self.add_node(UG::Delay { time, feedback, mix, src, buffer, head: 0 })
    }

    /// A `+` mixer node over `sources`.
    pub fn mix(&mut self, sources: Vec<usize>) -> (id: usize)
        requires
            wf(*old(self)),
            forall|j: int| 0 <= j < sources@.len() ==> (#[trigger] sources@[j]) < old(
                self,
            ).nodes.len(),
            old(self).nodes.len() < usize::MAX,
        ensures
            wf(*final(self)),
            appended(*old(self), *final(self), id, UG::Mix { sources }),
    {
        self.add_node(UG::Mix { sources })
    }

    /// A table leaf.
    pub fn tab(&mut self, data: Vec<NumLit>) -> (id: usize)
        requires
            wf(*old(self)),
            old(self).nodes.len() < usize::MAX,
        ensures
            wf(*final(self)),
            appended(*old(self), *final(self), id, UG::Tab(data)),
    {
        self.add_node(UG::Tab(data))
    }

    /// A pattern leaf.
    pub fn pat(&mut self, data: Vec<Message>) -> (id: usize)
        requires
            wf(*old(self)),
            old(self).nodes.len() < usize::MAX,
        ensures
            wf(*final(self)),
            appended(*old(self), *final(self), id, UG::Pat(data)),
    {
        self.add_node(UG::Pat(data))
    }
}

} // verus!
