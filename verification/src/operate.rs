use vstd::prelude::*;

use crate::fp::Fp;
use crate::strings::str_eq;
use crate::ugen::{
    edge_ok, spec_edges, spec_is_leaf, wf, wf_node, Graph, NumLit, OperateError, UG,
};

verus! {

/// The operator name of a variant, as it appears in patch text and in
/// error messages.
pub open spec fn spec_op_name(u: UG) -> Seq<char> {
    match u {
        UG::Val(_) => "val"@,
        UG::Sine { .. } => "sine"@,
        UG::Tri { .. } => "tri"@,
        UG::Saw { .. } => "saw"@,
        UG::Pulse { .. } => "pulse"@,
        UG::Rand { .. } => "rand"@,
        UG::Phase { .. } => "phase"@,
        UG::WaveTable { .. } => "wavetable"@,
        UG::OneshotOsc { .. } => "oneshot"@,
        UG::Adsr { .. } => "adsr"@,
        UG::Lpf { .. } => "lpf"@,
        UG::Delay { .. } => "delay"@,
        UG::Mix { .. } => "+"@,
        UG::Tab(_) => "table"@,
        UG::Pat(_) => "pat"@,
    }
}

/// The edge position of the parameter called `name`, if the variant
/// has one.  Parameters sit in declaration order, matching the edges.
pub open spec fn spec_param_idx(u: UG, name: Seq<char>) -> Option<int> {
    match u {
        UG::Sine { .. } => {
            if name == "init_ph"@ {
                Some(0int)
            } else if name == "freq"@ {
                Some(1int)
            } else {
                None
            }
        },
        UG::Tri { .. } => {
            if name == "init_ph"@ {
                Some(0int)
            } else if name == "freq"@ {
                Some(1int)
            } else {
                None
            }
        },
        UG::Saw { .. } => {
            if name == "init_ph"@ {
                Some(0int)
            } else if name == "freq"@ {
                Some(1int)
            } else {
                None
            }
        },
        UG::Pulse { .. } => {
            if name == "init_ph"@ {
                Some(0int)
            } else if name == "freq"@ {
                Some(1int)
            } else if name == "duty"@ {
                Some(2int)
            } else {
                None
            }
        },
        UG::Rand { .. } => {
            if name == "freq"@ {
                Some(0int)
            } else {
                None
            }
        },
        UG::Phase { .. } => {
            if name == "osc"@ {
                Some(0int)
            } else {
                None
            }
        },
        UG::WaveTable { .. } => {
            if name == "table"@ {
                Some(0int)
            } else if name == "ph"@ {
                Some(1int)
            } else {
                None
            }
        },
        UG::OneshotOsc { .. } => {
            if name == "osc"@ {
                Some(0int)
            } else if name == "eg"@ {
                Some(1int)
            } else {
                None
            }
        },
        UG::Adsr { .. } => {
            if name == "a"@ {
                Some(0int)
            } else if name == "d"@ {
                Some(1int)
            } else if name == "s"@ {
                Some(2int)
            } else if name == "r"@ {
                Some(3int)
            } else {
                None
            }
        },
        UG::Lpf { .. } => {
            if name == "freq"@ {
                Some(0int)
            } else if name == "q"@ {
                Some(1int)
            } else if name == "src"@ {
                Some(2int)
            } else {
                None
            }
        },
        UG::Delay { .. } => {
            if name == "time"@ {
                Some(0int)
            } else if name == "feedback"@ {
                Some(1int)
            } else if name == "mix"@ {
                Some(2int)
            } else if name == "src"@ {
                Some(3int)
            } else {
                None
            }
        },
        _ => None,
    }
}

/// Whether `get` answers for this variant: a random source hides its
/// parameter from reads, and leaves have none at all.
pub open spec fn spec_gettable(u: UG, name: Seq<char>) -> Option<int> {
    match u {
        UG::Rand { .. } => None,
        _ => spec_param_idx(u, name),
    }
}

/// `u` with the edge at parameter position `k` replaced by `e`.
pub open spec fn spec_set_edge(u: UG, k: int, e: usize) -> UG {
    match u {
        UG::Sine { init_ph, freq, ph } => {
            if k == 0 {
                UG::Sine { init_ph: e, freq, ph }
            } else {
                UG::Sine { init_ph, freq: e, ph }
            }
        },
        UG::Tri { init_ph, freq, ph } => {
            if k == 0 {
                UG::Tri { init_ph: e, freq, ph }
            } else {
                UG::Tri { init_ph, freq: e, ph }
            }
        },
        UG::Saw { init_ph, freq, ph } => {
            if k == 0 {
                UG::Saw { init_ph: e, freq, ph }
            } else {
                UG::Saw { init_ph, freq: e, ph }
            }
        },
        UG::Pulse { init_ph, freq, duty, ph } => {
            if k == 0 {
                UG::Pulse { init_ph: e, freq, duty, ph }
            } else if k == 1 {
                UG::Pulse { init_ph, freq: e, duty, ph }
            } else {
                UG::Pulse { init_ph, freq, duty: e, ph }
            }
        },
        UG::Rand { freq, count, v } => UG::Rand { freq: e, count, v },
        UG::Phase { .. } => UG::Phase { osc: e },
        UG::WaveTable { table, ph } => {
            if k == 0 {
                UG::WaveTable { table: e, ph }
            } else {
                UG::WaveTable { table, ph: e }
            }
        },
        UG::OneshotOsc { osc, eg } => {
            if k == 0 {
                UG::OneshotOsc { osc: e, eg }
            } else {
                UG::OneshotOsc { osc, eg: e }
            }
        },
        UG::Adsr { a, d, s, r, state, eplaced } => {
            if k == 0 {
                UG::Adsr { a: e, d, s, r, state, eplaced }
            } else if k == 1 {
                UG::Adsr { a, d: e, s, r, state, eplaced }
            } else if k == 2 {
                UG::Adsr { a, d, s: e, r, state, eplaced }
            } else {
                UG::Adsr { a, d, s, r: e, state, eplaced }
            }
        },
        UG::Lpf { freq, q, src, in0, in1, out0, out1 } => {
            if k == 0 {
                UG::Lpf { freq: e, q, src, in0, in1, out0, out1 }
            } else if k == 1 {
                UG::Lpf { freq, q: e, src, in0, in1, out0, out1 }
            } else {
                UG::Lpf { freq, q, src: e, in0, in1, out0, out1 }
            }
        },
        UG::Delay { time, feedback, mix, src, buffer, head } => {
            if k == 0 {
                UG::Delay { time: e, feedback, mix, src, buffer, head }
            } else if k == 1 {
                UG::Delay { time, feedback: e, mix, src, buffer, head }
            } else if k == 2 {
                UG::Delay { time, feedback, mix: e, src, buffer, head }
            } else {
                UG::Delay { time, feedback, mix, src: e, buffer, head }
            }
        },
        _ => u,
    }
}

/// Replacing a parameter edge keeps the variant's shape apart from
/// that edge, and its edge list changes at exactly that position.
pub proof fn lemma_set_edge_shape(u: UG, k: int, e: usize)
    requires
        0 <= k < spec_edges(u).len(),
        !(u matches UG::Mix { .. }),
    ensures
        spec_edges(spec_set_edge(u, k, e)) == spec_edges(u).update(k, e),
        !spec_is_leaf(spec_set_edge(u, k, e)),
    decreases 0int,
{
    match u {
        UG::Sine { .. } => {
            assert(spec_edges(spec_set_edge(u, k, e)) =~= spec_edges(u).update(k, e));
        },
        UG::Tri { .. } => {
            assert(spec_edges(spec_set_edge(u, k, e)) =~= spec_edges(u).update(k, e));
        },
        UG::Saw { .. } => {
            assert(spec_edges(spec_set_edge(u, k, e)) =~= spec_edges(u).update(k, e));
        },
        UG::Pulse { .. } => {
            assert(spec_edges(spec_set_edge(u, k, e)) =~= spec_edges(u).update(k, e));
        },
        UG::Rand { .. } => {
            assert(spec_edges(spec_set_edge(u, k, e)) =~= spec_edges(u).update(k, e));
        },
        UG::Phase { .. } => {
            assert(spec_edges(spec_set_edge(u, k, e)) =~= spec_edges(u).update(k, e));
        },
        UG::WaveTable { .. } => {
            assert(spec_edges(spec_set_edge(u, k, e)) =~= spec_edges(u).update(k, e));
        },
        UG::OneshotOsc { .. } => {
            assert(spec_edges(spec_set_edge(u, k, e)) =~= spec_edges(u).update(k, e));
        },
        UG::Adsr { .. } => {
            assert(spec_edges(spec_set_edge(u, k, e)) =~= spec_edges(u).update(k, e));
        },
        UG::Lpf { .. } => {
            assert(spec_edges(spec_set_edge(u, k, e)) =~= spec_edges(u).update(k, e));
        },
        UG::Delay { .. } => {
            assert(spec_edges(spec_set_edge(u, k, e)) =~= spec_edges(u).update(k, e));
        },
        _ => {},
    }
}

/// The error payload `op/name` for parameter errors.
pub open spec fn spec_err_name(u: UG, name: Seq<char>) -> Seq<char> {
    spec_op_name(u).add("/"@).add(name)
}

impl Graph {
    /// The operator name of node `id`.
    pub fn op_name(&self, id: usize) -> (r: &'static str)
        requires
            id < self.nodes.len(),
        ensures
            r@ == spec_op_name(self.nodes[id as int].ug),
    {
        match &self.nodes[id].ug {
            UG::Val(_) => "val",
            UG::Sine { .. } => "sine",
            UG::Tri { .. } => "tri",
            UG::Saw { .. } => "saw",
            UG::Pulse { .. } => "pulse",
            UG::Rand { .. } => "rand",
            UG::Phase { .. } => "phase",
            UG::WaveTable { .. } => "wavetable",
            UG::OneshotOsc { .. } => "oneshot",
            UG::Adsr { .. } => "adsr",
            UG::Lpf { .. } => "lpf",
            UG::Delay { .. } => "delay",
            UG::Mix { .. } => "+",
            UG::Tab(_) => "table",
            UG::Pat(_) => "pat",
        }
    }

    /// The `op/name` payload of a parameter error at node `id`.
    fn err_name(&self, id: usize, pname: &str) -> (s: String)
        requires
            id < self.nodes.len(),
        ensures
            s@ == spec_err_name(self.nodes[id as int].ug, pname@),
    {
        let mut s = String::from_str(self.op_name(id));
        s.append("/");
        s.append(pname);
        s
    }

    /// The edge position of parameter `pname` of node `id`.
    fn param_index(&self, id: usize, pname: &str) -> (r: Option<usize>)
        requires
            id < self.nodes.len(),
        ensures
            (match spec_param_idx(self.nodes[id as int].ug, pname@) {
                Some(k) => r == Some(k as usize),
                None => r is None,
            }),
    {
        let u = &self.nodes[id].ug;
        let r: Option<usize> = match u {
            UG::Sine { .. } | UG::Tri { .. } | UG::Saw { .. } => {
                if str_eq(pname, "init_ph") {
                    Some(0)
                } else if str_eq(pname, "freq") {
                    Some(1)
                } else {
                    None
                }
            },
            UG::Pulse { .. } => {
                if str_eq(pname, "init_ph") {
                    Some(0)
                } else if str_eq(pname, "freq") {
                    Some(1)
                } else if str_eq(pname, "duty") {
                    Some(2)
                } else {
                    None
                }
            },
            UG::Rand { .. } => {
                if str_eq(pname, "freq") {
                    Some(0)
                } else {
                    None
                }
            },
            UG::Phase { .. } => {
                if str_eq(pname, "osc") {
                    Some(0)
                } else {
                    None
                }
            },
            UG::WaveTable { .. } => {
                if str_eq(pname, "table") {
                    Some(0)
                } else if str_eq(pname, "ph") {
                    Some(1)
                } else {
                    None
                }
            },
            UG::OneshotOsc { .. } => {
                if str_eq(pname, "osc") {
                    Some(0)
                } else if str_eq(pname, "eg") {
                    Some(1)
                } else {
                    None
                }
            },
            UG::Adsr { .. } => {
                if str_eq(pname, "a") {
                    Some(0)
                } else if str_eq(pname, "d") {
                    Some(1)
                } else if str_eq(pname, "s") {
                    Some(2)
                } else if str_eq(pname, "r") {
                    Some(3)
                } else {
                    None
                }
            },
            UG::Lpf { .. } => {
                if str_eq(pname, "freq") {
                    Some(0)
                } else if str_eq(pname, "q") {
                    Some(1)
                } else if str_eq(pname, "src") {
                    Some(2)
                } else {
                    None
                }
            },
            UG::Delay { .. } => {
                if str_eq(pname, "time") {
                    Some(0)
                } else if str_eq(pname, "feedback") {
                    Some(1)
                } else if str_eq(pname, "mix") {
                    Some(2)
                } else if str_eq(pname, "src") {
                    Some(3)
                } else {
                    None
                }
            },
            _ => None,
        };
        r
    }
}


/// `s` without newline characters.
pub open spec fn spec_strip_nl(s: Seq<char>) -> Seq<char> {
    s.filter(|c: char| c != '\n')
}

/// `s` without newline and space characters.
pub open spec fn spec_strip_nl_sp(s: Seq<char>) -> Seq<char> {
    s.filter(|c: char| c != '\n' && c != ' ')
}

/// Drop newlines from `s`, and spaces too unless `keep_spaces`.
pub fn strip_chars(s: &str, keep_spaces: bool) -> (r: String)
    ensures
        keep_spaces ==> r@ == spec_strip_nl(s@),
        !keep_spaces ==> r@ == spec_strip_nl_sp(s@),
{
    let ghost pred = if keep_spaces {
        |c: char| c != '\n'
    } else {
        |c: char| c != '\n' && c != ' '
    };
    let len = s.unicode_len();
    let mut out = String::new();
    let mut i: usize = 0;
    proof {
        reveal_with_fuel(Seq::filter, 1);
        assert(s@.subrange(0, 0) =~= Seq::<char>::empty());
        assert(out@ =~= s@.subrange(0, 0).filter(pred));
    }
    while i < len
        invariant
            len == s@.len(),
            0 <= i <= len,
            pred == (if keep_spaces {
                |c: char| c != '\n'
            } else {
                |c: char| c != '\n' && c != ' '
            }),
            out@ == s@.subrange(0, i as int).filter(pred),
        decreases len - i,
    {
        let c = s.get_char(i);
        proof {
            reveal(Seq::filter);
            assert(s@.subrange(0, i + 1).drop_last() =~= s@.subrange(0, i as int));
            assert(s@.subrange(0, i + 1).last() == c);
        }
        let keep = if keep_spaces {
            c != '\n'
        } else {
            c != '\n' && c != ' '
        };
        if keep {
            out.append(s.substring_char(i, i + 1));
            proof {
                assert(s@.subrange(i as int, i + 1) =~= seq![c]);
                assert(out@ =~= s@.subrange(0, i + 1).filter(pred));
            }
        }
        i = i + 1;
    }
    proof {
        assert(s@.subrange(0, len as int) =~= s@);
    }
    out
}

/// The clearing rules: which parameter the `clear` operation resets.
/// Random sources and phase shapers reset nothing.
pub open spec fn spec_clearable(u: UG, name: Seq<char>) -> Option<int> {
    match u {
        UG::Rand { .. } => None,
        UG::Phase { .. } => None,
        _ => spec_param_idx(u, name),
    }
}

impl Graph {
    /// Rebuild node `id` with parameter position `k` pointing at `e`.
    pub(crate) fn set_edge_exec(&mut self, id: usize, k: usize, e: usize)
        requires
            wf(*old(self)),
            id < old(self).nodes.len(),
            e < old(self).nodes.len(),
            spec_is_leaf(old(self).nodes[e as int].ug) || e < id,
            0 <= k < spec_edges(old(self).nodes[id as int].ug).len(),
            !(old(self).nodes[id as int].ug matches UG::Mix { .. }),
        ensures
            wf(*final(self)),
            final(self).nodes.len() == old(self).nodes.len(),
            final(self).nodes[id as int].ug == spec_set_edge(
                old(self).nodes[id as int].ug,
                k as int,
                e,
            ),
            final(self).nodes[id as int].last_tick == old(self).nodes[id as int].last_tick,
            final(self).nodes[id as int].last_sig == old(self).nodes[id as int].last_sig,
            final(self).nodes[id as int].id == old(self).nodes[id as int].id,
            forall|j: int|
                0 <= j < old(self).nodes.len() && j != id ==> final(self).nodes[j] == #[trigger] old(
                    self,
                ).nodes[j],
    {
        let ghost g0 = *self;
        let mut tmp: UG = UG::Mix { sources: Vec::new() };
        core::mem::swap(&mut tmp, &mut self.nodes[id].ug);
        let new_ug = replace_edge_val(tmp, k, e);
        self.nodes[id].ug = new_ug;
        proof {
            lemma_set_edge_shape(g0.nodes[id as int].ug, k as int, e);
            assert forall|i: int| 0 <= i < self.nodes.len() implies #[trigger] wf_node(
                *self,
                i,
            ) by {
                assert(wf_node(g0, i));
                if i != id {
                    assert(self.nodes[i] == g0.nodes[i]);
                    assert forall|jj: int|
                        0 <= jj < spec_edges(self.nodes[i].ug).len() implies edge_ok(
                        *self,
                        i,
                        #[trigger] spec_edges(self.nodes[i].ug)[jj],
                    ) by {
                        let x = spec_edges(g0.nodes[i].ug)[jj];
                        assert(edge_ok(g0, i, x));
                        if x as int != id {
                            assert(self.nodes[x as int] == g0.nodes[x as int]);
                        }
                    }
                } else {
                    assert(spec_edges(self.nodes[i].ug) == spec_edges(g0.nodes[i].ug).update(
                        k as int,
                        e,
                    ));
                    assert forall|jj: int|
                        0 <= jj < spec_edges(self.nodes[i].ug).len() implies edge_ok(
                        *self,
                        i,
                        #[trigger] spec_edges(self.nodes[i].ug)[jj],
                    ) by {
                        if jj == k {
                            if (e as int) != id {
                                assert(self.nodes[e as int] == g0.nodes[e as int]);
                            }
                        } else {
                            let x = spec_edges(g0.nodes[i].ug)[jj];
                            assert(edge_ok(g0, i, x));
                            if x as int != id {
                                assert(self.nodes[x as int] == g0.nodes[x as int]);
                            }
                        }
                    }
                }
            }
        }
    }

    /// Look up the parameter `pname` of node `id`: its node index, or
    /// the error the reflection protocol prescribes.
    pub fn get(&self, id: usize, pname: &str) -> (r: Result<usize, OperateError>)
        requires
            id < self.nodes.len(),
        ensures
            (match spec_gettable(self.nodes[id as int].ug, pname@) {
                Some(k) => r == Result::<usize, OperateError>::Ok(
                    spec_edges(self.nodes[id as int].ug)[k],
                ),
                None => {
                    if spec_is_leaf(self.nodes[id as int].ug) {
                        r matches Err(OperateError::NotUgen)
                    } else {
                        (r matches Err(OperateError::ParamNotFound(s)) && s@ == spec_err_name(
                            self.nodes[id as int].ug,
                            pname@,
                        ))
                    }
                },
            }),
    {
        let leaf = match &self.nodes[id].ug {
            UG::Val(_) => true,
            UG::Tab(_) => true,
            UG::Pat(_) => true,
            _ => false,
        };
        if leaf {
            return Err(OperateError::NotUgen);
        }
        let hidden = match &self.nodes[id].ug {
            UG::Rand { .. } => true,
            _ => false,
        };
        if hidden {
            return Err(OperateError::ParamNotFound(self.err_name(id, pname)));
        }
        match self.param_index(id, pname) {
            Option::Some(k) => {
                let children = self.children_of(id);
                Ok(children[k])
            },
            Option::None => Err(OperateError::ParamNotFound(self.err_name(id, pname))),
        }
    }

    /// Read the parameter `pname` of node `id` as text; this works only
    /// when the parameter is a constant node, whose stored rendering is
    /// returned.
    pub fn get_str(&self, id: usize, pname: &str) -> (r: Result<String, OperateError>)
        requires
            wf(*self),
            id < self.nodes.len(),
        ensures
            (match spec_gettable(self.nodes[id as int].ug, pname@) {
                Some(k) => (match self.nodes[spec_edges(self.nodes[id as int].ug)[k] as int].ug {
                    UG::Val(lit) => (r matches Ok(s) && s@ == lit.text@),
                    _ => (r matches Err(OperateError::CannotRepresentAsString(s)) && s@
                        == spec_err_name(self.nodes[id as int].ug, pname@)),
                }),
                None => {
                    if spec_is_leaf(self.nodes[id as int].ug) {
                        r matches Err(OperateError::NotUgen)
                    } else {
                        (r matches Err(OperateError::ParamNotFound(s)) && s@ == spec_err_name(
                            self.nodes[id as int].ug,
                            pname@,
                        ))
                    }
                },
            }),
    {
        let got = self.get(id, pname);
        match got {
            Result::Ok(e) => {
                proof {
                    assert(wf_node(*self, id as int));
                    let ghost k = spec_gettable(self.nodes[id as int].ug, pname@).unwrap();
                    assert(edge_ok(*self, id as int, spec_edges(self.nodes[id as int].ug)[k]));
                }
                match self.to_val(e) {
                    Option::Some(lit) => Ok(lit.text),
                    Option::None => Err(
                        OperateError::CannotRepresentAsString(self.err_name(id, pname)),
                    ),
                }
            },
            Result::Err(err) => Err(err),
        }
    }

    /// Rewire the parameter `pname` of node `id` to the node `ug_id`.
    /// To keep the graph acyclic, the new parameter must be a leaf or
    /// an older node.
    pub fn set(&mut self, id: usize, pname: &str, ug_id: usize) -> (r: Result<
        bool,
        OperateError,
    >)
        requires
            wf(*old(self)),
            id < old(self).nodes.len(),
            ug_id < old(self).nodes.len(),
            spec_is_leaf(old(self).nodes[ug_id as int].ug) || ug_id < id,
        ensures
            wf(*final(self)),
            final(self).nodes.len() == old(self).nodes.len(),
            (match spec_param_idx(old(self).nodes[id as int].ug, pname@) {
                Some(k) => {
                    &&& r == Result::<bool, OperateError>::Ok(true)
                    &&& final(self).nodes[id as int].ug == spec_set_edge(
                        old(self).nodes[id as int].ug,
                        k,
                        ug_id,
                    )
                    &&& final(self).nodes[id as int].last_tick == old(
                        self,
                    ).nodes[id as int].last_tick
                    &&& final(self).nodes[id as int].last_sig == old(
                        self,
                    ).nodes[id as int].last_sig
                    &&& forall|j: int|
                        0 <= j < old(self).nodes.len() && j != id ==> final(self).nodes[j]
                            == #[trigger] old(self).nodes[j]
                },
                None => {
                    &&& *final(self) == *old(self)
                    &&& (if spec_is_leaf(old(self).nodes[id as int].ug) {
                        r matches Err(OperateError::NotUgen)
                    } else {
                        (r matches Err(OperateError::ParamNotFound(s)) && s@ == spec_err_name(
                            old(self).nodes[id as int].ug,
                            pname@,
                        ))
                    })
                },
            }),
    {
        let leaf = match &self.nodes[id].ug {
            UG::Val(_) => true,
            UG::Tab(_) => true,
            UG::Pat(_) => true,
            _ => false,
        };
        if leaf {
            return Err(OperateError::NotUgen);
        }
        match self.param_index(id, pname) {
            Option::Some(k) => {
                self.set_edge_exec(id, k, ug_id);
                Ok(true)
            },
            Option::None => Err(OperateError::ParamNotFound(self.err_name(id, pname))),
        }
    }

    /// Set the parameter `pname` of node `id` from text: the cleaned
    /// text is parsed as a number by the host and wrapped in a fresh
    /// constant node.  On parse failure the graph is unchanged and the
    /// cleaned text is reported.
    pub fn set_str<F: Fp>(&mut self, id: usize, pname: &str, data: &str, fp: &mut F) -> (r: Result<
        bool,
        OperateError,
    >)
        requires
            wf(*old(self)),
            id < old(self).nodes.len(),
            old(self).nodes.len() < usize::MAX,
        ensures
            wf(*final(self)),
            (if (old(self).nodes[id as int].ug matches UG::WaveTable { .. }) && pname@
                == "table"@ {
                ||| {
                    &&& r == Result::<bool, OperateError>::Ok(true)
                    &&& final(self).nodes.len() == old(self).nodes.len() + 1
                    &&& final(self).nodes[id as int].ug == spec_set_edge(
                        old(self).nodes[id as int].ug,
                        0,
                        old(self).nodes.len() as usize,
                    )
                    &&& (final(self).nodes[old(self).nodes.len() as int].ug matches UG::Tab(_))
                    &&& forall|j: int|
                        0 <= j < old(self).nodes.len() && j != id ==> final(self).nodes[j]
                            == #[trigger] old(self).nodes[j]
                }
                ||| {
                    &&& (r matches Err(OperateError::CannotParseNumber(n, d)) && n@
                        == spec_err_name(old(self).nodes[id as int].ug, pname@) && d@
                        == spec_strip_nl(data@))
                    &&& *final(self) == *old(self)
                }
            } else {
                match spec_param_idx(old(self).nodes[id as int].ug, pname@) {
                    Some(k) => {
                        ||| {
                            &&& r == Result::<bool, OperateError>::Ok(true)
                            &&& final(self).nodes.len() == old(self).nodes.len() + 1
                            &&& final(self).nodes[id as int].ug == spec_set_edge(
                                old(self).nodes[id as int].ug,
                                k,
                                old(self).nodes.len() as usize,
                            )
                            &&& (final(self).nodes[old(self).nodes.len() as int].ug
                                matches UG::Val(_))
                            &&& forall|j: int|
                                0 <= j < old(self).nodes.len() && j != id ==> final(self).nodes[j]
                                    == #[trigger] old(self).nodes[j]
                        }
                        ||| {
                            &&& (r matches Err(OperateError::CannotParseNumber(n, d)) && n@
                                == spec_err_name(old(self).nodes[id as int].ug, pname@) && d@
                                == spec_strip_nl_sp(data@))
                            &&& *final(self) == *old(self)
                        }
                    },
                    None => {
                        &&& *final(self) == *old(self)
                        &&& (if spec_is_leaf(old(self).nodes[id as int].ug) {
                            r matches Err(OperateError::NotUgen)
                        } else {
                            (r matches Err(OperateError::ParamNotFound(s)) && s@ == spec_err_name(
                                old(self).nodes[id as int].ug,
                                pname@,
                            ))
                        })
                    },
                }
            }),
    {
        let leaf = match &self.nodes[id].ug {
            UG::Val(_) => true,
            UG::Tab(_) => true,
            UG::Pat(_) => true,
            _ => false,
        };
        if leaf {
            return Err(OperateError::NotUgen);
        }
        let is_table_param = match &self.nodes[id].ug {
            UG::WaveTable { .. } => str_eq(pname, "table"),
            _ => false,
        };
        if is_table_param {
            let cleaned = strip_chars(data, true);
            match crate::pattern::Table::parse_str(cleaned.as_str(), fp) {
                Option::Some(lits) => {
                    let tab_id = self.tab(lits);
                    self.set_edge_exec(id, 0, tab_id);
                    return Ok(true);
                },
                Option::None => {
                    return Err(
                        OperateError::CannotParseNumber(self.err_name(id, pname), cleaned),
                    );
                },
            }
        }
        match self.param_index(id, pname) {
            Option::Some(k) => {
                let cleaned = strip_chars(data, false);
                match fp.parse_num(cleaned.as_str()) {
                    Option::Some((bits, text)) => {
                        let val_id = self.val(NumLit { bits, text });
                        self.set_edge_exec(id, k, val_id);
                        Ok(true)
                    },
                    Option::None => Err(
                        OperateError::CannotParseNumber(self.err_name(id, pname), cleaned),
                    ),
                }
            },
            Option::None => Err(OperateError::ParamNotFound(self.err_name(id, pname))),
        }
    }

    /// Reset the parameter `pname` of node `id` to a fresh zero
    /// constant (for a wavetable's table, a fresh two-entry zero
    /// table).  Unknown names, random sources and phase shapers reset
    /// nothing.
    pub fn clear(&mut self, id: usize, pname: &str)
        requires
            wf(*old(self)),
            id < old(self).nodes.len(),
            old(self).nodes.len() < usize::MAX,
        ensures
            wf(*final(self)),
            (match spec_clearable(old(self).nodes[id as int].ug, pname@) {
                Some(k) => {
                    &&& final(self).nodes.len() == old(self).nodes.len() + 1
                    &&& final(self).nodes[id as int].ug == spec_set_edge(
                        old(self).nodes[id as int].ug,
                        k,
                        old(self).nodes.len() as usize,
                    )
                    &&& (if old(self).nodes[id as int].ug matches UG::WaveTable { .. } && k == 0 {
                        final(self).nodes[old(self).nodes.len() as int].ug matches UG::Tab(d)
                            && d@.len() == 2
                    } else {
                        final(self).nodes[old(self).nodes.len() as int].ug matches UG::Val(lit)
                            && lit.bits == crate::fp::ZERO_BITS
                    })
                    &&& forall|j: int|
                        0 <= j < old(self).nodes.len() && j != id ==> final(self).nodes[j]
                            == #[trigger] old(self).nodes[j]
                },
                None => *final(self) == *old(self),
            }),
    {
        let skip = match &self.nodes[id].ug {
            UG::Rand { .. } => true,
            UG::Phase { .. } => true,
            UG::Val(_) => true,
            UG::Tab(_) => true,
            UG::Pat(_) => true,
            UG::Mix { .. } => true,
            _ => false,
        };
        if skip {
            return;
        }
        let is_table_param = match &self.nodes[id].ug {
            UG::WaveTable { .. } => str_eq(pname, "table"),
            _ => false,
        };
        match self.param_index(id, pname) {
            Option::Some(k) => {
                if is_table_param {
                    let mut lits: Vec<NumLit> = Vec::new();
                    lits.push(NumLit { bits: crate::fp::ZERO_BITS, text: String::from_str("0") });
                    lits.push(NumLit { bits: crate::fp::ZERO_BITS, text: String::from_str("0") });
                    let tab_id = self.tab(lits);
                    self.set_edge_exec(id, 0, tab_id);
                } else {
                    let val_id = self.val(
                        NumLit { bits: crate::fp::ZERO_BITS, text: String::from_str("0") },
                    );
                    self.set_edge_exec(id, k, val_id);
                }
            },
            Option::None => {},
        }
    }
}

/// `u` rebuilt with parameter position `k` pointing at `e`.
fn replace_edge_val(u: UG, k: usize, e: usize) -> (r: UG)
    ensures
        r == spec_set_edge(u, k as int, e),
{
    match u {
        UG::Sine { init_ph, freq, ph } => {
            if k == 0 {
                UG::Sine { init_ph: e, freq, ph }
            } else {
                UG::Sine { init_ph, freq: e, ph }
            }
        },
        UG::Tri { init_ph, freq, ph } => {
            if k == 0 {
                UG::Tri { init_ph: e, freq, ph }
            } else {
                UG::Tri { init_ph, freq: e, ph }
            }
        },
        UG::Saw { init_ph, freq, ph } => {
            if k == 0 {
                UG::Saw { init_ph: e, freq, ph }
            } else {
                UG::Saw { init_ph, freq: e, ph }
            }
        },
        UG::Pulse { init_ph, freq, duty, ph } => {
            if k == 0 {
                UG::Pulse { init_ph: e, freq, duty, ph }
            } else if k == 1 {
                UG::Pulse { init_ph, freq: e, duty, ph }
            } else {
                UG::Pulse { init_ph, freq, duty: e, ph }
            }
        },
        UG::Rand { freq, count, v } => UG::Rand { freq: e, count, v },
        UG::Phase { .. } => UG::Phase { osc: e },
        UG::WaveTable { table, ph } => {
            if k == 0 {
                UG::WaveTable { table: e, ph }
            } else {
                UG::WaveTable { table, ph: e }
            }
        },
        UG::OneshotOsc { osc, eg } => {
            if k == 0 {
                UG::OneshotOsc { osc: e, eg }
            } else {
                UG::OneshotOsc { osc, eg: e }
            }
        },
        UG::Adsr { a, d, s, r, state, eplaced } => {
            if k == 0 {
                UG::Adsr { a: e, d, s, r, state, eplaced }
            } else if k == 1 {
                UG::Adsr { a, d: e, s, r, state, eplaced }
            } else if k == 2 {
                UG::Adsr { a, d, s: e, r, state, eplaced }
            } else {
                UG::Adsr { a, d, s, r: e, state, eplaced }
            }
        },
        UG::Lpf { freq, q, src, in0, in1, out0, out1 } => {
            if k == 0 {
                UG::Lpf { freq: e, q, src, in0, in1, out0, out1 }
            } else if k == 1 {
                UG::Lpf { freq, q: e, src, in0, in1, out0, out1 }
            } else {
                UG::Lpf { freq, q, src: e, in0, in1, out0, out1 }
            }
        },
        UG::Delay { time, feedback, mix, src, buffer, head } => {
            if k == 0 {
                UG::Delay { time: e, feedback, mix, src, buffer, head }
            } else if k == 1 {
                UG::Delay { time, feedback: e, mix, src, buffer, head }
            } else if k == 2 {
                UG::Delay { time, feedback, mix: e, src, buffer, head }
            } else {
                UG::Delay { time, feedback, mix, src: e, buffer, head }
            }
        },
        _ => u,
    }
}

} // verus!\n