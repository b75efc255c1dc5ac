use vstd::prelude::*;

use crate::ugen::{
    edge_ok, spec_edges, spec_is_leaf, spec_rank, spec_walk_edges, wf, wf_node, Graph, UG,
};

verus! {

/// Whether node `j` can be reached from node `i` along parameter edges.
pub open spec fn reach(g: Graph, i: int, j: int) -> bool
    decreases spec_rank(g, i),
{
    i == j || (0 <= i < g.nodes.len() && !spec_is_leaf(g.nodes[i].ug) && exists|k: int|
        0 <= k < spec_edges(g.nodes[i].ug).len() && edge_ok(
            g,
            i,
            #[trigger] spec_edges(g.nodes[i].ug)[k],
        ) && reach(g, spec_edges(g.nodes[i].ug)[k] as int, j))
}

/// Whether node `j` can be reached from node `i` along the edges the
/// walker follows.
pub open spec fn walk_reach(g: Graph, i: int, j: int) -> bool
    decreases spec_rank(g, i),
{
    i == j || (0 <= i < g.nodes.len() && !spec_is_leaf(g.nodes[i].ug) && exists|k: int|
        0 <= k < spec_walk_edges(g.nodes[i].ug).len() && edge_ok(
            g,
            i,
            #[trigger] spec_walk_edges(g.nodes[i].ug)[k],
        ) && walk_reach(g, spec_walk_edges(g.nodes[i].ug)[k] as int, j))
}

/// Under well-formedness, every edge the walker follows is a valid edge.
pub proof fn lemma_walk_edges_ok(g: Graph, i: int)
    requires
        wf(g),
        0 <= i < g.nodes.len(),
    ensures
        forall|k: int|
            0 <= k < spec_walk_edges(g.nodes[i].ug).len() ==> edge_ok(
                g,
                i,
                #[trigger] spec_walk_edges(g.nodes[i].ug)[k],
            ),
{
    assert(wf_node(g, i));
    let u = g.nodes[i].ug;
    assert forall|k: int|
        0 <= k < spec_walk_edges(u).len() implies edge_ok(g, i, #[trigger] spec_walk_edges(u)[k]) by {
        match u {
            UG::Rand { .. } => {},
            _ => {
                assert(spec_walk_edges(u) == spec_edges(u));
                assert(edge_ok(g, i, spec_edges(u)[k]));
            },
        }
    }
}

/// A node reaches each of its walker edges.
pub proof fn lemma_walk_reach_step(g: Graph, i: int, k: int)
    requires
        wf(g),
        0 <= i < g.nodes.len(),
        0 <= k < spec_walk_edges(g.nodes[i].ug).len(),
    ensures
        walk_reach(g, i, spec_walk_edges(g.nodes[i].ug)[k] as int),
{
    lemma_walk_edges_ok(g, i);
    let e = spec_walk_edges(g.nodes[i].ug)[k] as int;
    assert(walk_reach(g, e, e));
    assert(!spec_is_leaf(g.nodes[i].ug));
}

/// Walker reachability is transitive.
pub proof fn lemma_walk_reach_trans(g: Graph, i: int, m: int, j: int)
    requires
        wf(g),
        walk_reach(g, i, m),
        walk_reach(g, m, j),
    ensures
        walk_reach(g, i, j),
    decreases spec_rank(g, i),
{
    if i != m {
        let k = choose|k: int|
            0 <= k < spec_walk_edges(g.nodes[i].ug).len() && edge_ok(
                g,
                i,
                #[trigger] spec_walk_edges(g.nodes[i].ug)[k],
            ) && walk_reach(g, spec_walk_edges(g.nodes[i].ug)[k] as int, m);
        lemma_walk_reach_trans(g, spec_walk_edges(g.nodes[i].ug)[k] as int, m, j);
    }
}

/// A seen-set closed under the walker's edges and holding `root` holds
/// everything the walker can reach from `root`.
pub proof fn lemma_reach_closed(g: Graph, seen: Seq<bool>, root: int, j: int)
    requires
        wf(g),
        seen.len() == g.nodes.len(),
        0 <= root < g.nodes.len(),
        seen[root],
        forall|u: int, k: int|
            0 <= u < g.nodes.len() && seen[u] && 0 <= k < spec_walk_edges(g.nodes[u].ug).len()
                ==> seen[#[trigger] spec_walk_edges(g.nodes[u].ug)[k] as int],
        walk_reach(g, root, j),
    ensures
        0 <= j < g.nodes.len() ==> seen[j],
        root == j || 0 <= j < g.nodes.len(),
    decreases spec_rank(g, root),
{
    if root != j {
        let k = choose|k: int|
            0 <= k < spec_walk_edges(g.nodes[root].ug).len() && edge_ok(
                g,
                root,
                #[trigger] spec_walk_edges(g.nodes[root].ug)[k],
            ) && walk_reach(g, spec_walk_edges(g.nodes[root].ug)[k] as int, j);
        let e = spec_walk_edges(g.nodes[root].ug)[k] as int;
        assert(seen[e]);
        lemma_reach_closed(g, seen, e, j);
    }
}

/// How many times `j` occurs in `s`.
pub open spec fn spec_count_in(s: Seq<usize>, j: usize) -> nat
    decreases s.len(),
{
    if s.len() == 0 {
        0
    } else {
        spec_count_in(s.drop_last(), j) + if s.last() == j {
            1nat
        } else {
            0nat
        }
    }
}

/// How many walker edges point at `j` from the nodes listed in `from`.
pub open spec fn spec_in_edges(g: Graph, from: Seq<usize>, j: usize) -> nat
    decreases from.len(),
{
    if from.len() == 0 {
        0
    } else {
        spec_in_edges(g, from.drop_last(), j) + spec_count_in(
            spec_walk_edges(g.nodes[from.last() as int].ug),
            j,
        )
    }
}

/// In-edge counting distributes over concatenation.
pub proof fn lemma_in_edges_add(g: Graph, a: Seq<usize>, b: Seq<usize>, j: usize)
    ensures
        spec_in_edges(g, a.add(b), j) == spec_in_edges(g, a, j) + spec_in_edges(g, b, j),
    decreases b.len(),
{
    if b.len() == 0 {
        assert(a.add(b) =~= a);
    } else {
        lemma_in_edges_add(g, a, b.drop_last(), j);
        assert(a.add(b).drop_last() =~= a.add(b.drop_last()));
        assert(a.add(b).last() == b.last());
    }
}

/// Nodes seen so far stay seen, and everything marked seen is listed in
/// `order` exactly once.
pub open spec fn seen_order_sync(seen: Seq<bool>, order: Seq<usize>) -> bool {
    &&& forall|j: int| 0 <= j < seen.len() ==> (#[trigger] seen[j] <==> order.contains(j as usize))
    &&& forall|t: int| 0 <= t < order.len() ==> (#[trigger] order[t] as int) < seen.len()
    &&& order.no_duplicates()
}

/// Capped addition used for reference counting: a node is shared as
/// soon as two edges point at it, so counts saturate at two.
pub open spec fn spec_cap2(n: int) -> u64 {
    if n >= 2 {
        2u64
    } else if n >= 0 {
        n as u64
    } else {
        0u64
    }
}

/// Pushing a fresh element: membership grows by exactly it, and
/// freedom from duplicates is kept.
pub proof fn lemma_contains_push(s: Seq<usize>, x: usize)
    requires
        !s.contains(x),
        s.no_duplicates(),
    ensures
        forall|y: usize| #[trigger] s.push(x).contains(y) <==> (s.contains(y) || y == x),
        s.push(x).no_duplicates(),
{
    let s1 = s.push(x);
    assert forall|y: usize| #[trigger] s1.contains(y) <==> (s.contains(y) || y == x) by {
        if s1.contains(y) {
            let i = choose|i: int| 0 <= i < s1.len() && s1[i] == y;
            if i < s.len() {
                assert(s[i] == y);
                assert(s.contains(y));
            }
        }
        if s.contains(y) {
            let i = choose|i: int| 0 <= i < s.len() && s[i] == y;
            assert(s1[i] == y);
            assert(s1.contains(y));
        }
        if y == x {
            assert(s1[s1.len() - 1] == x);
            assert(s1.contains(x));
        }
    }
    assert forall|i: int, j: int| 0 <= i < j < s1.len() implies s1[i] != s1[j] by {
        if j < s1.len() - 1 {
            assert(s1[i] == s[i] && s1[j] == s[j]);
        } else {
            assert(s1[i] == s[i]);
            assert(s.contains(s[i]));
        }
    }
}

/// All walker edges of node `j` lead to seen nodes.
pub open spec fn node_closed(g: Graph, seen: Seq<bool>, j: int) -> bool {
    forall|k: int|
        0 <= k < spec_walk_edges(g.nodes[j].ug).len() ==> seen[#[trigger] spec_walk_edges(
            g.nodes[j].ug,
        )[k] as int]
}

impl Graph {
    /// The edges of node `id` that the walker follows, in declaration
    /// order.
    pub fn walk_children(&self, id: usize) -> (r: Vec<usize>)
        requires
            id < self.nodes.len(),
        ensures
            r@ == spec_walk_edges(self.nodes[id as int].ug),
    {
        match &self.nodes[id].ug {
            UG::Val(_) => vec![],
            UG::Sine { init_ph, freq, .. } => vec![*init_ph, *freq],
            UG::Tri { init_ph, freq, .. } => vec![*init_ph, *freq],
            UG::Saw { init_ph, freq, .. } => vec![*init_ph, *freq],
            UG::Pulse { init_ph, freq, duty, .. } => vec![*init_ph, *freq, *duty],
            UG::Rand { .. } => vec![],
            UG::Phase { osc } => vec![*osc],
            UG::WaveTable { table, ph } => vec![*table, *ph],
            UG::OneshotOsc { osc, eg } => vec![*osc, *eg],
            UG::Adsr { a, d, s, r, .. } => vec![*a, *d, *s, *r],
            UG::Lpf { freq, q, src, .. } => vec![*freq, *q, *src],
            UG::Delay { time, feedback, mix, src, .. } => vec![*time, *feedback, *mix, *src],
            UG::Mix { sources } => {
                let mut v: Vec<usize> = Vec::new();
                let mut k: usize = 0;
                while k < sources.len()
                    invariant
                        k <= sources@.len(),
                        v@ == sources@.subrange(0, k as int),
                    decreases sources@.len() - k,
                {
                    v.push(sources[k]);
                    proof {
                        assert(v@ =~= sources@.subrange(0, k + 1));
                    }
                    k = k + 1;
                }
                proof {
                    assert(sources@.subrange(0, sources@.len() as int) =~= sources@);
                }
                v
            },
            UG::Tab(_) => vec![],
            UG::Pat(_) => vec![],
        }
    }

    /// Walk the graph from `root`, recording every node the walker can
    /// reach, in first-visit order, and the nodes that are shared: those
    /// at which at least two walker edges of reachable nodes point.
    ///
    /// The first result lists exactly the nodes the walker reaches from
    /// `root`, each once, starting with `root`.  The second lists the
    /// reached nodes whose in-edge count over the reached nodes is at
    /// least two, ordered so that no entry reaches a later one (data
    /// leaves first, then oldest nodes first): a shared definition can
    /// then only reference definitions that precede it.
    pub fn walk_collect(&self, root: usize) -> (r: (Vec<usize>, Vec<usize>))
        requires
            wf(*self),
            root < self.nodes.len(),
        ensures
            r.0@.no_duplicates(),
            r.0@.len() > 0 && r.0@[0] == root,
            forall|j: int|
                0 <= j < self.nodes.len() ==> (walk_reach(*self, root as int, j) <==> r.0@.contains(
                    j as usize,
                )),
            forall|t: int| 0 <= t < r.0@.len() ==> (#[trigger] r.0@[t] as int) < self.nodes.len(),
            r.1@.no_duplicates(),
            forall|j: int|
                0 <= j < self.nodes.len() ==> (#[trigger] r.1@.contains(j as usize) <==> (
                walk_reach(*self, root as int, j) && spec_in_edges(*self, r.0@, j as usize) >= 2)),
            forall|t: int| 0 <= t < r.1@.len() ==> (#[trigger] r.1@[t] as int) < self.nodes.len(),
            forall|i2: int, j2: int|
                0 <= i2 < j2 < r.1@.len() ==> !reach(*self, r.1@[i2] as int, r.1@[j2] as int),
    {
        let n = self.nodes.len();
        let mut seen: Vec<bool> = Vec::new();
        let mut counts: Vec<u64> = Vec::new();
        let mut k: usize = 0;
        while k < n
            invariant
                k <= n,
                seen@.len() == k,
                counts@.len() == k,
                forall|j: int| 0 <= j < k ==> !(#[trigger] seen@[j]),
                forall|j: int| 0 <= j < k ==> (#[trigger] counts@[j]) == 0,
            decreases n - k,
        {
            seen.push(false);
            counts.push(0);
            k = k + 1;
        }
        let mut order: Vec<usize> = Vec::new();
        let ghost seen0 = seen@;
        seen.set(root, true);
        order.push(root);
        proof {
            assert(seen_order_sync(seen0, Seq::<usize>::empty()));
            lemma_sync_push(seen0, Seq::<usize>::empty(), root);
            assert(seen@ =~= seen0.update(root as int, true));
            assert(order@ =~= Seq::<usize>::empty().push(root));
            assert(seen_order_sync(seen@, order@));
            assert(order@ =~= seq![root]);
        }
        self.visit_node(root, &mut seen, &mut order, &mut counts);
        proof {
            assert forall|j: int|
                0 <= j < self.nodes.len() && walk_reach(*self, root as int, j) implies order@.contains(
                j as usize,
            ) by {
                lemma_reach_closed(*self, seen@, root as int, j);
            }
            assert forall|j: int|
                0 <= j < self.nodes.len() && order@.contains(j as usize) implies walk_reach(
                *self,
                root as int,
                j,
            ) by {
                assert(seen@[j]);
            }
            assert(seq![root].add(order@.subrange(1, order@.len() as int)) =~= order@);
        }
        let shared = self.order_shared(&seen, &counts);
        proof {
            assert forall|j: int| 0 <= j < self.nodes.len() implies (#[trigger] shared@.contains(
                j as usize,
            ) <==> (walk_reach(*self, root as int, j) && spec_in_edges(*self, order@, j as usize)
                >= 2)) by {
                let x: usize = j as usize;
                assert(shared@.contains(x) <==> (seen@[x as int] && counts@[x as int] >= 2));
                assert(seen@[j] <==> order@.contains(j as usize));
                assert(counts@[j] == spec_cap2(spec_in_edges(*self, order@, j as usize) as int));
            }
            assert forall|i2: int, j2: int|
                0 <= i2 < j2 < shared@.len() implies !reach(
                *self,
                shared@[i2] as int,
                shared@[j2] as int,
            ) by {
                if reach(*self, shared@[i2] as int, shared@[j2] as int) {
                    assert(shared@[i2] != shared@[j2]);
                    crate::eval::lemma_reach_rank(*self, shared@[i2] as int, shared@[j2] as int);
                    assert(spec_rank(*self, shared@[i2] as int) <= spec_rank(
                        *self,
                        shared@[j2] as int,
                    ));
                    assert(false);
                }
            }
        }
        (order, shared)
    }

    /// List the shared nodes — those whose capped reference count
    /// reached two — ordered so that every definition precedes any
    /// definition that references it: data leaves first, then the
    /// remaining nodes oldest first.  A node only reaches strictly
    /// lower-ranked nodes, so a later entry never occurs inside an
    /// earlier one.
    fn order_shared(&self, seen: &Vec<bool>, counts: &Vec<u64>) -> (shared: Vec<usize>)
        requires
            seen@.len() == self.nodes.len(),
            counts@.len() == self.nodes.len(),
        ensures
            shared@.no_duplicates(),
            forall|t: int|
                0 <= t < shared@.len() ==> (#[trigger] shared@[t] as int) < self.nodes.len(),
            forall|x: usize|
                (x as int) < self.nodes.len() ==> (#[trigger] shared@.contains(x) <==> (
                seen@[x as int] && counts@[x as int] >= 2)),
            forall|i2: int, j2: int|
                0 <= i2 < j2 < shared@.len() ==> spec_rank(*self, shared@[i2] as int) <= spec_rank(
                    *self,
                    shared@[j2] as int,
                ),
    {
        let n = self.nodes.len();
        let mut shared: Vec<usize> = Vec::new();
        let mut j: usize = 0;
        while j < n
            invariant
                j <= n,
                n == self.nodes.len(),
                seen@.len() == n,
                counts@.len() == n,
                forall|x: usize|
                    (x as int) < n ==> (#[trigger] shared@.contains(x) <==> ((x as int) < j
                        && seen@[x as int] && counts@[x as int] >= 2 && spec_is_leaf(
                        self.nodes[x as int].ug,
                    ))),
                forall|tt: int|
                    0 <= tt < shared@.len() ==> (#[trigger] shared@[tt] as int) < n && spec_is_leaf(
                        self.nodes[shared@[tt] as int].ug,
                    ),
                shared@.no_duplicates(),
            decreases n - j,
        {
            if seen[j] && counts[j] >= 2 && self.leaf_node(j) {
                let ghost pre = shared@;
                shared.push(j);
                proof {
                    assert(!pre.contains(j));
                    lemma_contains_push(pre, j);
                }
            }
            j = j + 1;
        }
        let mut j2: usize = 0;
        proof {
            assert forall|x: usize|
                (x as int) < n implies (#[trigger] shared@.contains(x) <==> (seen@[x as int]
                && counts@[x as int] >= 2 && (spec_is_leaf(self.nodes[x as int].ug) || (x as int)
                    < 0))) by {}
        }
        while j2 < n
            invariant
                j2 <= n,
                n == self.nodes.len(),
                seen@.len() == n,
                counts@.len() == n,
                forall|x: usize|
                    (x as int) < n ==> (#[trigger] shared@.contains(x) <==> (seen@[x as int]
                        && counts@[x as int] >= 2 && (spec_is_leaf(self.nodes[x as int].ug) || (
                        x as int) < j2))),
                forall|tt: int|
                    0 <= tt < shared@.len() ==> (#[trigger] shared@[tt] as int) < n,
                forall|tt: int|
                    0 <= tt < shared@.len() && !spec_is_leaf(self.nodes[shared@[tt] as int].ug)
                        ==> (#[trigger] shared@[tt] as int) < j2,
                forall|t1: int, t2: int|
                    0 <= t1 < t2 < shared@.len() ==> spec_rank(*self, shared@[t1] as int)
                        <= spec_rank(*self, shared@[t2] as int),
                shared@.no_duplicates(),
            decreases n - j2,
        {
            if seen[j2] && counts[j2] >= 2 && !self.leaf_node(j2) {
                let ghost pre = shared@;
                shared.push(j2);
                proof {
                    assert(!pre.contains(j2));
                    lemma_contains_push(pre, j2);
                    assert forall|t1: int, t2: int|
                        0 <= t1 < t2 < shared@.len() implies spec_rank(*self, shared@[t1] as int)
                        <= spec_rank(*self, shared@[t2] as int) by {
                        if t2 == shared@.len() - 1 {
                            assert(shared@[t1] == pre[t1]);
                            assert(shared@[t2] == j2);
                        }
                    }
                }
            }
            j2 = j2 + 1;
        }
        shared
    }

    /// Whether node `j` is a data leaf.
    fn leaf_node(&self, j: usize) -> (b: bool)
        requires
            j < self.nodes.len(),
        ensures
            b == spec_is_leaf(self.nodes[j as int].ug),
    {
        match &self.nodes[j].ug {
            UG::Val(_) => true,
            UG::Tab(_) => true,
            UG::Pat(_) => true,
            _ => false,
        }
    }

    /// Process the walker edges of `u`: count each target, and visit
    /// targets not seen before, marking them and appending them to
    /// `order` first.
    fn visit_node(&self, u: usize, seen: &mut Vec<bool>, order: &mut Vec<usize>, counts: &mut Vec<
        u64,
    >)
        requires
            wf(*self),
            u < self.nodes.len(),
            old(seen)@.len() == self.nodes.len(),
            old(counts)@.len() == self.nodes.len(),
            old(seen)@[u as int],
            seen_order_sync(old(seen)@, old(order)@),
            forall|j: int| 0 <= j < old(counts)@.len() ==> (#[trigger] old(counts)@[j]) <= 2,
        ensures
            final(seen)@.len() == self.nodes.len(),
            final(counts)@.len() == self.nodes.len(),
            seen_order_sync(final(seen)@, final(order)@),
            old(order)@.is_prefix_of(final(order)@),
            forall|j: int|
                0 <= j < final(seen)@.len() && old(seen)@[j] ==> #[trigger] final(seen)@[j],
            forall|j: int|
                0 <= j < final(seen)@.len() && final(seen)@[j] && !old(seen)@[j] ==> walk_reach(
                    *self,
                    u as int,
                    j,
                ),
            forall|j: int|
                0 <= j < final(seen)@.len() && (j == u as int || (final(seen)@[j] && !old(
                    seen,
                )@[j])) ==> node_closed(*self, final(seen)@, j),
            forall|j: int|
                0 <= j < final(counts)@.len() ==> (#[trigger] final(counts)@[j]) == spec_cap2(
                    old(counts)@[j] + spec_in_edges(
                        *self,
                        seq![u].add(
                            final(order)@.subrange(
                                old(order)@.len() as int,
                                final(order)@.len() as int,
                            ),
                        ),
                        j as usize,
                    ),
                ),
        decreases spec_rank(*self, u as int),
    {
        let children = self.walk_children(u);
        let ghost entry_seen = seen@;
        let ghost entry_order = order@;
        let ghost entry_counts = counts@;
        let ghost cs = spec_walk_edges(self.nodes[u as int].ug);
        let mut k: usize = 0;
        proof {
            assert(cs.subrange(0, 0) =~= Seq::<usize>::empty());
            assert(order@.subrange(entry_order.len() as int, order@.len() as int)
                =~= Seq::<usize>::empty());
        }
        while k < children.len()
            invariant
                wf(*self),
                u < self.nodes.len(),
                children@ == cs,
                cs == spec_walk_edges(self.nodes[u as int].ug),
                k <= cs.len(),
                seen@.len() == self.nodes.len(),
                counts@.len() == self.nodes.len(),
                entry_seen.len() == self.nodes.len(),
                entry_counts.len() == self.nodes.len(),
                entry_seen[u as int],
                forall|j: int| 0 <= j < entry_counts.len() ==> (#[trigger] entry_counts[j]) <= 2,
                seen_order_sync(seen@, order@),
                entry_order.is_prefix_of(order@),
                forall|j: int| 0 <= j < seen@.len() && entry_seen[j] ==> #[trigger] seen@[j],
                forall|j: int|
                    0 <= j < seen@.len() && seen@[j] && !entry_seen[j] ==> walk_reach(
                        *self,
                        u as int,
                        j,
                    ),
                forall|j: int|
                    0 <= j < seen@.len() && seen@[j] && !entry_seen[j] ==> node_closed(
                        *self,
                        seen@,
                        j,
                    ),
                forall|t: int|
                    0 <= t < k ==> (#[trigger] cs[t] as int) < seen@.len() && seen@[cs[t] as int],
                forall|j: int|
                    0 <= j < counts@.len() ==> (#[trigger] counts@[j]) == spec_cap2(
                        entry_counts[j] + spec_in_edges(
                            *self,
                            order@.subrange(entry_order.len() as int, order@.len() as int),
                            j as usize,
                        ) + spec_count_in(cs.subrange(0, k as int), j as usize),
                    ),
            decreases cs.len() - k,
        {
            let c = children[k];
            proof {
                lemma_walk_edges_ok(*self, u as int);
                assert(edge_ok(*self, u as int, cs[k as int]));
            }
            let ghost it_order = order@;
            let ghost it_seen = seen@;
            let ghost d_it = it_order.subrange(entry_order.len() as int, it_order.len() as int);
            let cc = counts[c];
            if cc < 2 {
                counts.set(c, cc + 1);
            }
            proof {
                assert(cs.subrange(0, k + 1).drop_last() =~= cs.subrange(0, k as int));
                assert(cs.subrange(0, k + 1).last() == c);
                assert forall|j: int| 0 <= j < counts@.len() implies (#[trigger] counts@[j])
                    == spec_cap2(
                    entry_counts[j] + spec_in_edges(*self, d_it, j as usize) + spec_count_in(
                        cs.subrange(0, k + 1),
                        j as usize,
                    ),
                ) by {
                    assert(spec_count_in(cs.subrange(0, k + 1), j as usize) == spec_count_in(
                        cs.subrange(0, k as int),
                        j as usize,
                    ) + if c == j as usize {
                        1nat
                    } else {
                        0nat
                    });
                }
            }
            if !seen[c] {
                let seen_len = seen.len();
                seen.set(c, true);
                order.push(c);
                proof {
                    assert(it_seen.len() == seen_len);
                    lemma_sync_push(it_seen, it_order, c);
                    assert(seen@ =~= it_seen.update(c as int, true));
                    assert(order@ =~= it_order.push(c));
                    lemma_walk_reach_step(*self, u as int, k as int);
                }
                let ghost mid_counts = counts@;
                let ghost mid_order = order@;
                let ghost mid_seen = seen@;
                self.visit_node(c, seen, order, counts);
                proof {
                    // reachability of nodes first seen in the nested visit
                    lemma_walk_reach_step(*self, u as int, k as int);
                    assert forall|j: int|
                        0 <= j < seen@.len() && seen@[j] && !entry_seen[j] implies walk_reach(
                        *self,
                        u as int,
                        j,
                    ) by {
                        if !mid_seen[j] {
                            lemma_walk_reach_trans(*self, u as int, c as int, j);
                        }
                    }
                    // closedness: earlier newly-seen nodes stay closed as seen grows
                    assert forall|j: int|
                        0 <= j < seen@.len() && seen@[j] && !entry_seen[j] implies node_closed(
                        *self,
                        seen@,
                        j,
                    ) by {
                        if j != c as int && mid_seen[j] {
                            assert(it_seen[j]);
                            assert(node_closed(*self, it_seen, j));
                            assert(wf_node(*self, j));
                            lemma_walk_edges_ok(*self, j);
                            assert forall|kk: int|
                                0 <= kk < spec_walk_edges(self.nodes[j].ug).len() implies seen@[#[trigger] spec_walk_edges(
                                self.nodes[j].ug,
                            )[kk] as int] by {
                                let e = spec_walk_edges(self.nodes[j].ug)[kk] as int;
                                assert(it_seen[e]);
                                assert(mid_seen[e]);
                            }
                        }
                    }
                    // re-associate the counted deltas
                    let d2 = order@.subrange(mid_order.len() as int, order@.len() as int);
                    let dfin = order@.subrange(entry_order.len() as int, order@.len() as int);
                    assert(mid_order.is_prefix_of(order@));
                    assert(order@.subrange(0, mid_order.len() as int) == mid_order);
                    assert(order@ =~= mid_order.add(d2));
                    assert(it_order.subrange(0, entry_order.len() as int) == entry_order);
                    assert(it_order =~= entry_order.add(d_it));
                    assert(mid_order =~= it_order.push(c));
                    assert(dfin =~= d_it.add(seq![c]).add(d2));
                    assert forall|j: int| 0 <= j < counts@.len() implies (#[trigger] counts@[j])
                        == spec_cap2(
                        entry_counts[j] + spec_in_edges(*self, dfin, j as usize) + spec_count_in(
                            cs.subrange(0, k + 1),
                            j as usize,
                        ),
                    ) by {
                        lemma_in_edges_add(*self, d_it.add(seq![c]), d2, j as usize);
                        lemma_in_edges_add(*self, d_it, seq![c], j as usize);
                        lemma_in_edges_add(*self, seq![c], d2, j as usize);
                        assert(seq![c].drop_last() =~= Seq::<usize>::empty());
                        assert(seq![c].last() == c);
                        assert(spec_in_edges(*self, Seq::<usize>::empty(), j as usize) == 0);
                        assert(spec_in_edges(*self, seq![c], j as usize) == spec_count_in(
                            spec_walk_edges(self.nodes[c as int].ug),
                            j as usize,
                        ));
                        assert(counts@[j] == spec_cap2(
                            mid_counts[j] + spec_in_edges(*self, seq![c].add(d2), j as usize),
                        ));
                        lemma_cap2_compose(
                            entry_counts[j] + spec_in_edges(*self, d_it, j as usize)
                                + spec_count_in(cs.subrange(0, k + 1), j as usize),
                            spec_in_edges(*self, seq![c].add(d2), j as usize) as int,
                        );
                    }
                }
            }
            k = k + 1;
        }
        proof {
            assert(cs.subrange(0, cs.len() as int) =~= cs);
            assert(node_closed(*self, seen@, u as int));
            let dall = order@.subrange(entry_order.len() as int, order@.len() as int);
            assert forall|j: int| 0 <= j < counts@.len() implies (#[trigger] counts@[j])
                == spec_cap2(
                entry_counts[j] + spec_in_edges(*self, seq![u].add(dall), j as usize),
            ) by {
                lemma_in_edges_add(*self, seq![u], dall, j as usize);
                assert(seq![u].drop_last() =~= Seq::<usize>::empty());
                assert(seq![u].last() == u);
                assert(spec_in_edges(*self, Seq::<usize>::empty(), j as usize) == 0);
                assert(spec_in_edges(*self, seq![u], j as usize) == spec_count_in(cs, j as usize));
            }
        }
    }
}

/// Capped addition composes: capping an already capped sum is the same
/// as capping the whole sum.
pub proof fn lemma_cap2_compose(a: int, b: int)
    requires
        a >= 0,
        b >= 0,
    ensures
        spec_cap2(spec_cap2(a) + b) == spec_cap2(a + b),
{
}

/// Marking an unseen node and appending it to the order keeps the two
/// in sync.
pub proof fn lemma_sync_push(seen0: Seq<bool>, order0: Seq<usize>, c: usize)
    requires
        seen_order_sync(seen0, order0),
        seen0.len() <= usize::MAX,
        (c as int) < seen0.len(),
        !seen0[c as int],
    ensures
        seen_order_sync(seen0.update(c as int, true), order0.push(c)),
{
    let seen1 = seen0.update(c as int, true);
    let order1 = order0.push(c);
    assert(!order0.contains(c));
    assert forall|j: int| 0 <= j < seen1.len() implies (#[trigger] seen1[j] <==> order1.contains(
        j as usize,
    )) by {
        if j == c as int {
            assert(order1[order1.len() - 1] == c);
            assert(order1.contains(c));
        } else {
            if seen1[j] {
                let t = choose|t: int| 0 <= t < order0.len() && order0[t] == j as usize;
                assert(order1[t] == j as usize);
                assert(order1.contains(j as usize));
            }
            if order1.contains(j as usize) {
                let t = choose|t: int| 0 <= t < order1.len() && order1[t] == j as usize;
                if t == order0.len() as int {
                    assert(order1[t] == c);
                    assert(j == c as int);
                }
                assert(t < order0.len());
                assert(order0[t] == j as usize);
                assert(order0.contains(j as usize));
            }
        }
    }
    assert forall|i: int, t: int| 0 <= i < t < order1.len() implies order1[i] != order1[t] by {
        if t < order1.len() - 1 {
            assert(order1[i] == order0[i] && order1[t] == order0[t]);
        } else {
            assert(order1[i] == order0[i]);
            assert(order0.contains(order0[i]));
        }
    }
    assert forall|t: int| 0 <= t < order1.len() implies (#[trigger] order1[t] as int)
        < seen1.len() by {
        if t < order0.len() {
            assert(order1[t] == order0[t]);
        }
    }
}

} // verus!
