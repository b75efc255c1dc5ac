use vstd::prelude::*;

use crate::event::{spec_pitch_str, to_len, to_str, Message};
use crate::fp::Fp;
use crate::strings::{spec_decimal, u64_to_string};
use crate::time::{Measure, Transport};
use crate::ugen::{
    edge_ok, spec_edges, spec_is_leaf, spec_rank, wf, wf_node, Graph, NumLit, UG,
};
use crate::operate::spec_op_name;
use crate::walk::walk_reach;

verus! {

/// A value in a dumped node: a number, a table, a rendered pattern, a
/// plain subgraph reference, or a reference to a shared definition.
pub enum Value {
    Number(NumLit),
    Table(Vec<NumLit>),
    Pattern(Vec<String>),
    Ug(usize),
    Shared(usize, usize),
}

/// One named parameter of a dumped node.
pub struct Slot {
    pub name: String,
    pub value: Value,
    pub ug: usize,
}

/// The dumped form of a node: a plain value, an operator with named
/// slots, or an operator with slots and a rest list.
pub enum UgNode {
    Val(Value),
    Ug(String, Vec<Slot>),
    UgRest(String, Vec<Slot>, String, Vec<Value>),
}

/// The first position of `x` in `s`.
pub open spec fn spec_find(s: Seq<usize>, x: usize) -> Option<int>
    decreases s.len(),
{
    if s.len() == 0 {
        None
    } else if s[0] == x {
        Some(0int)
    } else {
        match spec_find(s.subrange(1, s.len() as int), x) {
            Option::Some(n) => Some(n + 1),
            Option::None => None,
        }
    }
}

/// The dumped value for an edge: a shared reference when the target is
/// a shared definition, else the subgraph itself.
pub open spec fn spec_value_for(shared: Seq<usize>, e: usize) -> Value {
    match spec_find(shared, e) {
        Option::Some(n) => Value::Shared(n as usize, e),
        Option::None => Value::Ug(e),
    }
}

/// The name of parameter position `k` of a variant.
pub open spec fn spec_param_name(u: UG, k: int) -> Seq<char> {
    match u {
        UG::Sine { .. } => if k == 0 { "init_ph"@ } else { "freq"@ },
        UG::Tri { .. } => if k == 0 { "init_ph"@ } else { "freq"@ },
        UG::Saw { .. } => if k == 0 { "init_ph"@ } else { "freq"@ },
        UG::Pulse { .. } => if k == 0 {
            "init_ph"@
        } else if k == 1 {
            "freq"@
        } else {
            "duty"@
        },
        UG::Rand { .. } => "freq"@,
        UG::Phase { .. } => "osc"@,
        UG::WaveTable { .. } => if k == 0 { "table"@ } else { "ph"@ },
        UG::OneshotOsc { .. } => if k == 0 { "osc"@ } else { "eg"@ },
        UG::Adsr { .. } => if k == 0 {
            "a"@
        } else if k == 1 {
            "d"@
        } else if k == 2 {
            "s"@
        } else {
            "r"@
        },
        UG::Lpf { .. } => if k == 0 {
            "freq"@
        } else if k == 1 {
            "q"@
        } else {
            "src"@
        },
        UG::Delay { .. } => if k == 0 {
            "time"@
        } else if k == 1 {
            "feedback"@
        } else if k == 2 {
            "mix"@
        } else {
            "src"@
        },
        _ => ""@,
    }
}

/// The stored decimal renderings of a list of numbers.
pub open spec fn spec_texts(v: Seq<NumLit>) -> Seq<Seq<char>> {
    v.map_values(|l: NumLit| l.text@)
}

/// Items joined by single spaces.
pub open spec fn spec_join_sp(items: Seq<Seq<char>>) -> Seq<char>
    decreases items.len(),
{
    if items.len() == 0 {
        Seq::<char>::empty()
    } else if items.len() == 1 {
        items[0]
    } else {
        spec_join_sp(items.drop_last()).add(" "@).add(items.last())
    }
}

/// The list form `(name item1 item2 ...)`.
pub open spec fn spec_dump_list(name: Seq<char>, items: Seq<Seq<char>>) -> Seq<char> {
    "("@.add(name).add(" "@).add(spec_join_sp(items)).add(")"@)
}

/// The token `shared-N`.
pub open spec fn spec_shared_token(n: usize) -> Seq<char> {
    "shared-"@.add(spec_decimal(n as nat))
}

/// What a rendered pattern token must look like for a message: `loop`,
/// or a pitch, a colon, and a division computed by the host.
pub open spec fn spec_tok_shape(m: Message, tok: Seq<char>) -> bool {
    match m {
        Message::Loop => tok == "loop"@,
        Message::Note(p, _) => exists|n: u32|
            tok == spec_pitch_str(p).add(":"@).add(#[trigger] spec_decimal(n as nat)),
    }
}

/// The canonical rendering of a node under a shared list, stated
/// recursively: a constant prints its stored text, a table its exact
/// list form, a pattern a `(pat ...)` list of tokens shaped from its
/// messages, and an operator the `(op ...)` form whose space-joined
/// pieces are, for each edge in order, the `shared-N` token when the
/// edge is a shared definition and the child's own rendering
/// otherwise.  Only the host-computed texts (number renderings inside
/// the graph and pattern tokens) stay existential.
pub open spec fn spec_rendering(g: Graph, shared: Seq<usize>, id: int, body: Seq<char>) -> bool
    decreases spec_rank(g, id), 1int,
{
    match g.nodes[id].ug {
        UG::Val(lit) => body == lit.text@,
        UG::Tab(d) => body == spec_dump_list("table"@, spec_texts(d@)),
        UG::Pat(msgs) => exists|toks: Seq<Seq<char>>|
            body == #[trigger] spec_dump_list("pat"@, toks) && toks.len() == msgs@.len() && (
            forall|i: int| 0 <= i < toks.len() ==> spec_tok_shape(msgs@[i], #[trigger] toks[i])),
        _ => exists|pieces: Seq<Seq<char>>|
            #![trigger spec_dump_list(spec_op_name(g.nodes[id].ug), pieces)]
            {
                &&& pieces.len() == spec_edges(g.nodes[id].ug).len()
                &&& (forall|j: int|
                    0 <= j < pieces.len() ==> spec_piece(
                        g,
                        shared,
                        id,
                        spec_edges(g.nodes[id].ug)[j],
                        #[trigger] pieces[j],
                    ))
                &&& body == spec_dump_list(spec_op_name(g.nodes[id].ug), pieces)
            },
    }
}

/// One piece of an operator rendering: the `shared-N` token for a
/// shared edge (at its first position in the list), else the child's
/// own rendering.
pub open spec fn spec_piece(
    g: Graph,
    shared: Seq<usize>,
    parent: int,
    e: usize,
    piece: Seq<char>,
) -> bool
    decreases spec_rank(g, parent), 0int,
{
    match spec_find(shared, e) {
        Option::Some(n) => piece == spec_shared_token(n as usize),
        Option::None => if 0 <= parent < g.nodes.len() && !spec_is_leaf(g.nodes[parent].ug)
            && edge_ok(g, parent, e) {
            spec_rendering(g, shared, e as int, piece)
        } else {
            true
        },
    }
}

/// What the rendered text of a dumped value must look like.
pub open spec fn spec_value_shape(g: Graph, shared: Seq<usize>, v: Value, body: Seq<char>) -> bool {
    match v {
        Value::Number(lit) => body == lit.text@,
        Value::Table(d) => body == spec_dump_list("table"@, spec_texts(d@)),
        Value::Pattern(toks) => body == spec_dump_list("pat"@, toks.deep_view()),
        Value::Shared(n, _) => body == spec_shared_token(n),
        Value::Ug(e) => (e as int) < g.nodes.len() ==> spec_rendering(g, shared, e as int, body),
    }
}

/// Slot pieces joined under the operator form's spacing rule: a space
/// follows a piece when it is nonempty and not the last of its list,
/// or in any position when rest values follow.
pub open spec fn spec_join_slots(pieces: Seq<Seq<char>>, total: int, more: bool) -> Seq<char>
    decreases pieces.len(),
{
    if pieces.len() == 0 {
        Seq::<char>::empty()
    } else {
        spec_join_slots(pieces.drop_last(), total, more).add(pieces.last()).add(
            if (pieces.last().len() != 0 && pieces.len() != total) || more {
                " "@
            } else {
                Seq::<char>::empty()
            },
        )
    }
}

/// Render a list with single spaces between items: `(name i1 i2 ...)`.
pub fn dump_list(name: &String, vec: &Vec<String>) -> (r: String)
    ensures
        r@ == spec_dump_list(name@, vec.deep_view()),
{
    let mut s = String::from_str("(");
    s.append(name.as_str());
    s.append(" ");
    let mut i: usize = 0;
    proof {
        assert(vec.deep_view().subrange(0, 0) =~= Seq::<Seq<char>>::empty());
    }
    while i < vec.len()
        invariant
            i <= vec@.len(),
            vec@.len() == vec.deep_view().len(),
            s@ == "("@.add(name@).add(" "@).add(
                spec_join_sp(vec.deep_view().subrange(0, i as int)),
            ).add(if 0 < i < vec.deep_view().len() {
                " "@
            } else {
                Seq::<char>::empty()
            }),
        decreases vec@.len() - i,
    {
        proof {
            assert(vec.deep_view().subrange(0, i + 1).drop_last() =~= vec.deep_view().subrange(
                0,
                i as int,
            ));
            assert(vec.deep_view().subrange(0, i + 1).last() == vec.deep_view()[i as int]);
            assert(vec@[i as int]@ == vec.deep_view()[i as int]);
        }
        s.append(vec[i].as_str());
        if i != vec.len() - 1 {
            s.append(" ");
        }
        i = i + 1;
    }
    proof {
        assert(vec.deep_view().subrange(0, vec.deep_view().len() as int) =~= vec.deep_view());
    }
    s.append(")");
    s
}

/// Render a table: `(name v1 v2 ...)` over the stored number texts.
pub fn dump_table(name: &String, vec: &Vec<NumLit>) -> (r: String)
    ensures
        r@ == spec_dump_list(name@, spec_texts(vec@)),
{
    let mut texts: Vec<String> = Vec::new();
    let mut i: usize = 0;
    while i < vec.len()
        invariant
            i <= vec@.len(),
            texts@.len() == i,
            forall|j: int| 0 <= j < i ==> (#[trigger] texts@[j])@ == vec@[j].text@,
        decreases vec@.len() - i,
    {
        texts.push(vec[i].text.clone());
        i = i + 1;
    }
    proof {
        assert forall|j: int| 0 <= j < vec@.len() implies #[trigger] texts.deep_view()[j]
            == spec_texts(vec@)[j] by {
            assert(texts.deep_view()[j] == texts@[j]@);
            assert(spec_texts(vec@)[j] == vec@[j].text@);
        }
        assert(texts.deep_view() =~= spec_texts(vec@));
    }
    let r = dump_list(name, &texts);
    r
}

/// Render the messages of a pattern as tokens.
pub fn pat_tokens<F: Fp>(msgs: &Vec<Message>, fp: &mut F) -> (r: Vec<String>)
    ensures
        r@.len() == msgs@.len(),
        forall|i: int|
            0 <= i < msgs@.len() ==> spec_tok_shape(msgs@[i], #[trigger] r.deep_view()[i]),
{
    let m = Measure { beat: 4, note: 4 };
    let mut out: Vec<String> = Vec::new();
    let mut i: usize = 0;
    while i < msgs.len()
        invariant
            i <= msgs@.len(),
            out@.len() == i,
            forall|j: int| 0 <= j < i ==> spec_tok_shape(msgs@[j], (#[trigger] out@[j])@),
        decreases msgs@.len() - i,
    {
        let tok: String = match &msgs[i] {
            Message::Note(pitch, len) => {
                let mut s = to_str(pitch);
                s.append(":");
                let n = to_len(len, &m, fp);
                s.append(u64_to_string(n as u64).as_str());
                proof {
                    assert(s@ == spec_pitch_str(*pitch).add(":"@).add(spec_decimal(n as nat)));
                    assert(spec_tok_shape(msgs@[i as int], s@));
                }
                s
            },
            Message::Loop => String::from_str("loop"),
        };
        out.push(tok);
        i = i + 1;
    }
    proof {
        assert forall|i2: int| 0 <= i2 < msgs@.len() implies spec_tok_shape(
            msgs@[i2],
            #[trigger] out.deep_view()[i2],
        ) by {
            assert(out.deep_view()[i2] == out@[i2]@);
        }
    }
    out
}

impl Graph {
    /// The position of edge target `e` in the shared list.
    fn find_shared(&self, shared: &Vec<usize>, e: usize) -> (r: Option<usize>)
        ensures
            (match spec_find(shared@, e) {
                Option::Some(n) => r == Some(n as usize),
                Option::None => r is None,
            }),
    {
        let mut i: usize = 0;
        proof {
            assert(shared@.subrange(0, shared@.len() as int) =~= shared@);
        }
        while i < shared.len()
            invariant
                i <= shared@.len(),
                forall|j: int| 0 <= j < i ==> shared@[j] != e,
                spec_find(shared@, e) == (match spec_find(
                    shared@.subrange(i as int, shared@.len() as int),
                    e,
                ) {
                    Option::Some(n) => Option::Some(n + i),
                    Option::None => Option::<int>::None,
                }),
            decreases shared@.len() - i,
        {
            proof {
                let tail = shared@.subrange(i as int, shared@.len() as int);
                assert(tail.subrange(1, tail.len() as int) =~= shared@.subrange(
                    i + 1,
                    shared@.len() as int,
                ));
            }
            if shared[i] == e {
                return Some(i);
            }
            i = i + 1;
        }
        proof {
            assert(shared@.subrange(i as int, shared@.len() as int).len() == 0);
        }
        None
    }

    /// The dumped value for an edge under the shared list.
    fn value_for(&self, shared: &Vec<usize>, e: usize) -> (r: Value)
        ensures
            r == spec_value_for(shared@, e),
    {
        match self.find_shared(shared, e) {
            Option::Some(n) => Value::Shared(n, e),
            Option::None => Value::Ug(e),
        }
    }

    /// The name of parameter position `k` of node `id`.
    fn param_name(&self, id: usize, k: usize) -> (r: &'static str)
        requires
            id < self.nodes.len(),
        ensures
            r@ == spec_param_name(self.nodes[id as int].ug, k as int),
    {
        match &self.nodes[id].ug {
            UG::Sine { .. } | UG::Tri { .. } | UG::Saw { .. } => {
                if k == 0 {
                    "init_ph"
                } else {
                    "freq"
                }
            },
            UG::Pulse { .. } => {
                if k == 0 {
                    "init_ph"
                } else if k == 1 {
                    "freq"
                } else {
                    "duty"
                }
            },
            UG::Rand { .. } => "freq",
            UG::Phase { .. } => "osc",
            UG::WaveTable { .. } => {
                if k == 0 {
                    "table"
                } else {
                    "ph"
                }
            },
            UG::OneshotOsc { .. } => {
                if k == 0 {
                    "osc"
                } else {
                    "eg"
                }
            },
            UG::Adsr { .. } => {
                if k == 0 {
                    "a"
                } else if k == 1 {
                    "d"
                } else if k == 2 {
                    "s"
                } else {
                    "r"
                }
            },
            UG::Lpf { .. } => {
                if k == 0 {
                    "freq"
                } else if k == 1 {
                    "q"
                } else {
                    "src"
                }
            },
            UG::Delay { .. } => {
                if k == 0 {
                    "time"
                } else if k == 1 {
                    "feedback"
                } else if k == 2 {
                    "mix"
                } else {
                    "src"
                }
            },
            _ => "",
        }
    }

    /// The dumped form of node `id` under the shared list: leaves give
    /// their value, operators a named slot per parameter (the mixer
    /// lists its sources as rest values).
    pub fn dump_node<F: Fp>(&self, id: usize, shared: &Vec<usize>, fp: &mut F) -> (r: UgNode)
        requires
            wf(*self),
            id < self.nodes.len(),
        ensures
            (match self.nodes[id as int].ug {
                UG::Val(lit) => (r matches UgNode::Val(v) && v matches Value::Number(l) && l
                    == lit),
                UG::Tab(d) => (r matches UgNode::Val(v) && v matches Value::Table(d2) && d2@ == d@),
                UG::Pat(msgs) => (r matches UgNode::Val(v) && v matches Value::Pattern(toks)
                    && toks@.len() == msgs@.len()),
                UG::Mix { sources } => (r matches UgNode::UgRest(name, slots, rest, values)
                    && name@ == "+"@ && slots@.len() == 0 && rest@ == "src"@ && values@.len()
                    == sources@.len() && (forall|k: int|
                    0 <= k < sources@.len() ==> #[trigger] values@[k] == spec_value_for(
                        shared@,
                        sources@[k],
                    ))),
                _ => (r matches UgNode::Ug(name, slots) && name@ == spec_op_name(
                    self.nodes[id as int].ug,
                ) && slots@.len() == spec_edges(self.nodes[id as int].ug).len() && (forall|k: int|
                    0 <= k < slots@.len() ==> (#[trigger] slots@[k].ug) == spec_edges(
                        self.nodes[id as int].ug,
                    )[k] && slots@[k].value == spec_value_for(
                        shared@,
                        spec_edges(self.nodes[id as int].ug)[k],
                    ) && slots@[k].name@ == spec_param_name(self.nodes[id as int].ug, k))),
            }),
    {
        let is_mix = match &self.nodes[id].ug {
            UG::Mix { .. } => true,
            _ => false,
        };
        match &self.nodes[id].ug {
            UG::Val(lit) => {
                return UgNode::Val(Value::Number(lit.clone()));
            },
            UG::Tab(d) => {
                return UgNode::Val(Value::Table(clone_lits(d)));
            },
            UG::Pat(msgs) => {
                return UgNode::Val(Value::Pattern(pat_tokens(msgs, fp)));
            },
            _ => {},
        }
        let children = self.children_of(id);
        if is_mix {
            let mut values: Vec<Value> = Vec::new();
            let mut k: usize = 0;
            while k < children.len()
                invariant
                    k <= children@.len(),
                    values@.len() == k,
                    children@ == spec_edges(self.nodes[id as int].ug),
                    id < self.nodes.len(),
                    forall|j: int|
                        0 <= j < k ==> #[trigger] values@[j] == spec_value_for(
                            shared@,
                            children@[j],
                        ),
                decreases children@.len() - k,
            {
                let v = self.value_for(shared, children[k]);
                values.push(v);
                k = k + 1;
            }
            return UgNode::UgRest(
                String::from_str("+"),
                Vec::new(),
                String::from_str("src"),
                values,
            );
        }
        let mut slots: Vec<Slot> = Vec::new();
        let mut k: usize = 0;
        while k < children.len()
            invariant
                k <= children@.len(),
                slots@.len() == k,
                children@ == spec_edges(self.nodes[id as int].ug),
                id < self.nodes.len(),
                forall|j: int|
                    0 <= j < k ==> (#[trigger] slots@[j].ug) == children@[j] && slots@[j].value
                        == spec_value_for(shared@, children@[j]) && slots@[j].name@
                        == spec_param_name(self.nodes[id as int].ug, j),
            decreases children@.len() - k,
        {
            let e = children[k];
            let v = self.value_for(shared, e);
            let nm = String::from_str(self.param_name(id, k));
            slots.push(Slot { name: nm, value: v, ug: e });
            k = k + 1;
        }
        UgNode::Ug(String::from_str(self.op_name(id)), slots)
    }

    /// Render node `id` as text under the shared list: an edge into
    /// the shared list prints as its `shared-N` token, anything else
    /// recursively.
    pub fn dump_node_text<F: Fp>(&self, id: usize, shared: &Vec<usize>, fp: &mut F) -> (r: String)
        requires
            wf(*self),
            id < self.nodes.len(),
        ensures
            spec_rendering(*self, shared@, id as int, r@),
        decreases spec_rank(*self, id as int),
    {
        match &self.nodes[id].ug {
            UG::Val(lit) => {
                return lit.text.clone();
            },
            UG::Tab(d) => {
                return dump_table(&String::from_str("table"), d);
            },
            UG::Pat(msgs) => {
                let toks = pat_tokens(msgs, fp);
                let out = dump_list(&String::from_str("pat"), &toks);
                proof {
                    assert(out@ == spec_dump_list("pat"@, toks.deep_view()));
                }
                return out;
            },
            _ => {},
        }
        let children = self.children_of(id);
        let mut pieces: Vec<String> = Vec::new();
        let mut k: usize = 0;
        while k < children.len()
            invariant
                wf(*self),
                k <= children@.len(),
                id < self.nodes.len(),
                children@ == spec_edges(self.nodes[id as int].ug),
                pieces@.len() == k,
                forall|j: int|
                    0 <= j < k ==> spec_piece(
                        *self,
                        shared@,
                        id as int,
                        children@[j],
                        (#[trigger] pieces@[j])@,
                    ),
            decreases children@.len() - k, spec_rank(*self, id as int), 0int,
        {
            let e = children[k];
            proof {
                assert(wf_node(*self, id as int));
                assert(edge_ok(*self, id as int, children@[k as int]));
                crate::eval::lemma_leaf_no_edges(self.nodes[id as int].ug);
                crate::ugen::lemma_edge_rank(*self, id as int, e);
            }
            let piece: String = match self.find_shared(shared, e) {
                Option::Some(n) => {
                    let mut s = String::from_str("shared-");
                    s.append(u64_to_string(n as u64).as_str());
                    proof {
                        assert(s@ == spec_shared_token(n));
                    }
                    s
                },
                Option::None => self.dump_node_text(e, shared, fp),
            };
            proof {
                assert(spec_piece(*self, shared@, id as int, e, piece@));
            }
            pieces.push(piece);
            k = k + 1;
        }
        let name = String::from_str(self.op_name(id));
        let out = dump_list(&name, &pieces);
        proof {
            assert forall|j: int| 0 <= j < pieces@.len() implies #[trigger] pieces.deep_view()[j]
                == pieces@[j]@ by {}
            assert forall|j: int|
                0 <= j < pieces.deep_view().len() implies spec_piece(
                *self,
                shared@,
                id as int,
                spec_edges(self.nodes[id as int].ug)[j],
                #[trigger] pieces.deep_view()[j],
            ) by {
                assert(pieces.deep_view()[j] == pieces@[j]@);
            }
            assert(out@ == spec_dump_list(
                spec_op_name(self.nodes[id as int].ug),
                pieces.deep_view(),
            ));
            assert(out@ == "("@.add(spec_op_name(self.nodes[id as int].ug)).add(" "@).add(
                spec_join_sp(pieces.deep_view()),
            ).add(")"@));
        }
        out
    }

    /// Render a dumped value: numbers print their stored text, tables
    /// and patterns their list form, shared references their token,
    /// and subgraphs recursively.
    pub fn dump_value<F: Fp>(&self, v: &Value, shared: &Vec<usize>, fp: &mut F) -> (r: String)
        requires
            wf(*self),
            (v matches Value::Ug(e) ==> e < self.nodes.len()),
        ensures
            spec_value_shape(*self, shared@, *v, r@),
    {
        match v {
            Value::Number(lit) => lit.text.clone(),
            Value::Table(d) => dump_table(&String::from_str("table"), d),
            Value::Pattern(toks) => dump_list(&String::from_str("pat"), toks),
            Value::Shared(n, _) => {
                let mut s = String::from_str("shared-");
                s.append(u64_to_string(*n as u64).as_str());
                s
            },
            Value::Ug(e) => self.dump_node_text(*e, shared, fp),
        }
    }

    /// Render a dumped node form as text.
    pub fn dump_unit<F: Fp>(&self, node: &UgNode, shared: &Vec<usize>, fp: &mut F) -> (r: String)
        requires
            wf(*self),
            (match node {
                UgNode::Val(v) => (v matches Value::Ug(e) ==> e < self.nodes.len()),
                UgNode::Ug(_, slots) => forall|k: int|
                    0 <= k < slots@.len() ==> ((#[trigger] slots@[k].value) matches Value::Ug(e)
                        ==> e < self.nodes.len()),
                UgNode::UgRest(_, slots, _, values) => (forall|k: int|
                    0 <= k < slots@.len() ==> ((#[trigger] slots@[k].value) matches Value::Ug(e)
                        ==> e < self.nodes.len())) && (forall|k: int|
                    0 <= k < values@.len() ==> ((#[trigger] values@[k]) matches Value::Ug(e) ==> e
                        < self.nodes.len())),
            }),
        ensures
            (match *node {
                UgNode::Val(v) => spec_value_shape(*self, shared@, v, r@),
                UgNode::Ug(name, slots) => exists|pieces: Seq<Seq<char>>|
                    #![trigger spec_join_slots(pieces, slots@.len() as int, false)]
                    {
                        &&& pieces.len() == slots@.len()
                        &&& (forall|k: int|
                            0 <= k < pieces.len() ==> spec_value_shape(
                                *self,
                                shared@,
                                slots@[k].value,
                                #[trigger] pieces[k],
                            ))
                        &&& r@ == "("@.add(name@).add(" "@).add(
                            spec_join_slots(pieces, slots@.len() as int, false),
                        ).add(")"@)
                    },
                UgNode::UgRest(name, slots, _, values) => exists|
                    spieces: Seq<Seq<char>>,
                    vpieces: Seq<Seq<char>>,
                |
                    #![trigger spec_join_slots(spieces, slots@.len() as int, true), spec_join_sp(vpieces)]
                    {
                        &&& spieces.len() == slots@.len()
                        &&& vpieces.len() == values@.len()
                        &&& (forall|k: int|
                            0 <= k < spieces.len() ==> spec_value_shape(
                                *self,
                                shared@,
                                slots@[k].value,
                                #[trigger] spieces[k],
                            ))
                        &&& (forall|k: int|
                            0 <= k < vpieces.len() ==> spec_value_shape(
                                *self,
                                shared@,
                                values@[k],
                                #[trigger] vpieces[k],
                            ))
                        &&& r@ == "("@.add(name@).add(" "@).add(
                            spec_join_slots(spieces, slots@.len() as int, true),
                        ).add(spec_join_sp(vpieces)).add(")"@)
                    },
            }),
    {
        match node {
            UgNode::Val(v) => self.dump_value(v, shared, fp),
            UgNode::Ug(name, slots) => {
                let mut s = String::from_str("(");
                s.append(name.as_str());
                s.append(" ");
                let ghost prefix = "("@.add(name@).add(" "@);
                let ghost mut pieces = Seq::<Seq<char>>::empty();
                let mut k: usize = 0;
                while k < slots.len()
                    invariant
                        wf(*self),
                        k <= slots@.len(),
                        prefix == "("@.add(name@).add(" "@),
                        pieces.len() == k,
                        forall|j: int|
                            0 <= j < k ==> spec_value_shape(
                                *self,
                                shared@,
                                slots@[j].value,
                                #[trigger] pieces[j],
                            ),
                        s@ == prefix.add(spec_join_slots(pieces, slots@.len() as int, false)),
                        forall|j: int|
                            0 <= j < slots@.len() ==> ((#[trigger] slots@[j].value)
                                matches Value::Ug(e) ==> e < self.nodes.len()),
                    decreases slots@.len() - k,
                {
                    let piece = self.dump_value(&slots[k].value, shared, fp);
                    let nonempty = piece.as_str().unicode_len() != 0;
                    s.append(piece.as_str());
                    if nonempty && k != slots.len() - 1 {
                        s.append(" ");
                    }
                    proof {
                        let np = pieces.push(piece@);
                        assert(np.drop_last() =~= pieces);
                        assert(np.last() == piece@);
                        pieces = np;
                    }
                    k = k + 1;
                }
                s.append(")");
                s
            },
            UgNode::UgRest(name, slots, _, values) => {
                let mut s = String::from_str("(");
                s.append(name.as_str());
                s.append(" ");
                let ghost prefix = "("@.add(name@).add(" "@);
                let ghost mut spieces = Seq::<Seq<char>>::empty();
                let mut k: usize = 0;
                while k < slots.len()
                    invariant
                        wf(*self),
                        k <= slots@.len(),
                        prefix == "("@.add(name@).add(" "@),
                        spieces.len() == k,
                        forall|j: int|
                            0 <= j < k ==> spec_value_shape(
                                *self,
                                shared@,
                                slots@[j].value,
                                #[trigger] spieces[j],
                            ),
                        s@ == prefix.add(spec_join_slots(spieces, slots@.len() as int, true)),
                        forall|j: int|
                            0 <= j < slots@.len() ==> ((#[trigger] slots@[j].value)
                                matches Value::Ug(e) ==> e < self.nodes.len()),
                    decreases slots@.len() - k,
                {
                    let piece = self.dump_value(&slots[k].value, shared, fp);
                    s.append(piece.as_str());
                    s.append(" ");
                    proof {
                        let np = spieces.push(piece@);
                        assert(np.drop_last() =~= spieces);
                        assert(np.last() == piece@);
                        spieces = np;
                    }
                    k = k + 1;
                }
                let ghost mid = s@;
                let ghost mut vpieces = Seq::<Seq<char>>::empty();
                let mut k2: usize = 0;
                proof {
                    assert(vpieces =~= Seq::<Seq<char>>::empty());
                }
                while k2 < values.len()
                    invariant
                        wf(*self),
                        k2 <= values@.len(),
                        vpieces.len() == k2,
                        forall|j: int|
                            0 <= j < k2 ==> spec_value_shape(
                                *self,
                                shared@,
                                values@[j],
                                #[trigger] vpieces[j],
                            ),
                        s@ == mid.add(spec_join_sp(vpieces)).add(
                            if 0 < k2 < values@.len() {
                                " "@
                            } else {
                                Seq::<char>::empty()
                            },
                        ),
                        forall|j: int|
                            0 <= j < values@.len() ==> ((#[trigger] values@[j])
                                matches Value::Ug(e) ==> e < self.nodes.len()),
                    decreases values@.len() - k2,
                {
                    let piece = self.dump_value(&values[k2], shared, fp);
                    s.append(piece.as_str());
                    if k2 != values.len() - 1 {
                        s.append(" ");
                    }
                    proof {
                        let np = vpieces.push(piece@);
                        assert(np.drop_last() =~= vpieces);
                        assert(np.last() == piece@);
                        vpieces = np;
                    }
                    k2 = k2 + 1;
                }
                s.append(")");
                s
            },
        }
    }
}

/// Clone a vector of numeric literals.
fn clone_lits(v: &Vec<NumLit>) -> (r: Vec<NumLit>)
    ensures
        r@ == v@,
{
    let mut out: Vec<NumLit> = Vec::new();
    let mut i: usize = 0;
    while i < v.len()
        invariant
            i <= v@.len(),
            out@ =~= v@.subrange(0, i as int),
        decreases v@.len() - i,
    {
        out.push(v[i].clone());
        proof {
            assert(out@ =~= v@.subrange(0, i + 1));
        }
        i = i + 1;
    }
    proof {
        assert(v@.subrange(0, v@.len() as int) =~= v@);
    }
    out
}


/// The shared-definition section: one `(def shared-N body)` line per
/// shared node, in order.
pub open spec fn spec_defs(bodies: Seq<Seq<char>>) -> Seq<char>
    decreases bodies.len(),
{
    if bodies.len() == 0 {
        Seq::<char>::empty()
    } else {
        spec_defs(bodies.drop_last()).add("(def shared-"@).add(
            spec_decimal((bodies.len() - 1) as nat),
        ).add(" "@).add(bodies.last()).add(")\n"@)
    }
}

/// The environment header of a dump.
pub open spec fn spec_dump_header(bpm: Seq<char>, m: Measure) -> Seq<char> {
    ";; environment\n"@.add("(bpm "@).add(bpm).add(")\n"@).add("(measure "@).add(
        spec_decimal(m.beat as nat),
    ).add(" "@).add(spec_decimal(m.note as nat)).add(")\n"@).add("\n;; shared units\n"@)
}

/// A whole dump: header, shared definitions, and the root form.
pub open spec fn spec_dump_text(
    bpm: Seq<char>,
    m: Measure,
    bodies: Seq<Seq<char>>,
    root_body: Seq<char>,
) -> Seq<char> {
    spec_dump_header(bpm, m).add(spec_defs(bodies)).add("\n;; unit graph\n"@).add(root_body).add(
        "\n"@,
    )
}

/// Serialize a graph to canonical patch text.  The walker discovers the
/// nodes at which at least two edges of the reachable graph point;
/// each becomes exactly one `(def shared-N ...)` definition, ordered so
/// that a definition only ever references earlier definitions (data
/// leaves first, then oldest nodes first), and every edge at a shared
/// node prints as its `shared-N` token, inside the definitions and in
/// the root form alike.
pub fn dump<F: Fp>(g: &Graph, root: usize, t: &Transport, fp: &mut F) -> (r: String)
    requires
        wf(*g),
        root < g.nodes.len(),
    ensures
        exists|ord: Seq<usize>, sh: Seq<usize>, bodies: Seq<Seq<char>>, rootb: Seq<char>|
            #![trigger spec_dump_text(t.bpm.text@, t.measure, bodies, rootb), ord.no_duplicates(), sh.no_duplicates()]
            {
                &&& ord.no_duplicates()
                &&& (forall|j: int|
                    0 <= j < g.nodes.len() ==> (walk_reach(*g, root as int, j) <==> ord.contains(
                        j as usize,
                    )))
                &&& sh.no_duplicates()
                &&& (forall|j: int|
                    0 <= j < g.nodes.len() ==> (#[trigger] sh.contains(j as usize) <==> (
                    walk_reach(*g, root as int, j) && crate::walk::spec_in_edges(
                        *g,
                        ord,
                        j as usize,
                    ) >= 2)))
                &&& (forall|t2: int| 0 <= t2 < sh.len() ==> (#[trigger] sh[t2] as int)
                    < g.nodes.len())
                &&& (forall|i2: int, j2: int|
                    0 <= i2 < j2 < sh.len() ==> !crate::walk::reach(
                        *g,
                        sh[i2] as int,
                        sh[j2] as int,
                    ))
                &&& bodies.len() == sh.len()
                &&& (forall|i2: int|
                    0 <= i2 < sh.len() ==> spec_rendering(
                        *g,
                        sh,
                        sh[i2] as int,
                        #[trigger] bodies[i2],
                    ))
                &&& spec_rendering(*g, sh, root as int, rootb)
                &&& r@ == spec_dump_text(t.bpm.text@, t.measure, bodies, rootb)
            },
{
    let (order, shared) = g.walk_collect(root);
    let mut s = String::from_str(";; environment\n");
    s.append("(bpm ");
    s.append(t.bpm.text.as_str());
    s.append(")\n");
    s.append("(measure ");
    s.append(u64_to_string(t.measure.beat as u64).as_str());
    s.append(" ");
    s.append(u64_to_string(t.measure.note as u64).as_str());
    s.append(")\n");
    s.append("\n;; shared units\n");
    proof {
        assert(s@ == spec_dump_header(t.bpm.text@, t.measure));
    }
    let ghost mut bodies = Seq::<Seq<char>>::empty();

    let mut idx: usize = 0;
    while idx < shared.len()
        invariant
            wf(*g),
            idx <= shared@.len(),
            bodies.len() == idx,
            forall|k: int| 0 <= k < shared@.len() ==> (#[trigger] shared@[k] as int)
                < g.nodes.len(),
            forall|k: int|
                0 <= k < idx ==> spec_rendering(*g, shared@, shared@[k] as int, #[trigger] bodies[k]),
            s@ == spec_dump_header(t.bpm.text@, t.measure).add(spec_defs(bodies)),
        decreases shared@.len() - idx,
    {
        s.append("(def shared-");
        s.append(u64_to_string(idx as u64).as_str());
        s.append(" ");
        let body = g.dump_node_text(shared[idx], &shared, fp);
        s.append(body.as_str());
        s.append(")\n");
        proof {
            let nb = bodies.push(body@);
            assert(nb.drop_last() =~= bodies);
            assert(nb.last() == body@);
            assert(spec_rendering(*g, shared@, shared@[idx as int] as int, body@));
            bodies = nb;
            assert forall|k: int|
                0 <= k < idx + 1 implies spec_rendering(
                *g,
                shared@,
                shared@[k] as int,
                #[trigger] bodies[k],
            ) by {
                if k < idx {
                    assert(bodies[k] == nb.drop_last()[k]);
                }
            }
        }
        idx = idx + 1;
    }
    s.append("\n;; unit graph\n");
    let rb = g.dump_node_text(root, &shared, fp);
    s.append(rb.as_str());
    s.append("\n");
    proof {
        assert(bodies.len() == shared@.len());
        assert(spec_rendering(*g, shared@, root as int, rb@));
        assert(s@ == spec_dump_text(t.bpm.text@, t.measure, bodies, rb@)) by {
            assert(s@ == spec_dump_header(t.bpm.text@, t.measure).add(spec_defs(bodies)).add(
                "\n;; unit graph\n"@,
            ).add(rb@).add("\n"@));
        }
        assert(order@.no_duplicates());
        assert(shared@.no_duplicates());
    }
    s
}

} // verus!\n