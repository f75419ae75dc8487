use crate::errors::MlcError;
use crate::graph_cache::{graph_wf, Edge, Graph, GraphCache};
use crate::label::{
    apply_rule, bag_after_insert, bag_blocks, bag_wf, copy_vec_usize, spec_apply_rule,
    spec_rule_of_name, Bag, Bags, Label, LabelV, UpdateRule,
};
use crate::model::{
    add_weights, cfg_ok, flatten_bags, iterate, label_valid, lemma_flatten_valid,
    lemma_iterate_derived, lemma_iterate_stable, lemma_seed_state_derived, lemma_step_preserves,
    make_candidate, relax_edges_from, relax_one, sat_add_u64, state_derived_upto, state_wf, step,
    SearchConfig, StateV,
};
use std::sync::Arc;
use vstd::prelude::*;

verus! {

/// The number of worklist labels a limited run processes before it stops
/// and flags its result as partial.  The bound guarantees termination even
/// when a misbehaving pricing rule breaks cost monotonicity; no label that
/// was already accepted into a bag is dropped — the search merely stops
/// extending them.
pub const STEP_LIMIT: u64 = 1000000;

/// How many fixed-point steps a run performs at most: a limited run stops
/// at [`STEP_LIMIT`]; an unlimited one runs to convergence (the `u64::MAX`
/// bound is unreachable in practice and exists so that every loop of the
/// engine provably terminates).
pub open spec fn run_budget(enable_limit: bool) -> u64 {
    if enable_limit {
        STEP_LIMIT
    } else {
        u64::MAX
    }
}

/// Element-wise saturating addition of two equal-length vectors.
pub fn add_weights_exec(a: &Vec<u64>, b: &Vec<u64>) -> (r: Vec<u64>)
    requires
        a@.len() == b@.len(),
    ensures
        r@ == add_weights(a@, b@),
{
    let n = a.len();
    let mut r: Vec<u64> = Vec::new();
    let mut i: usize = 0;
    while i < n
        invariant
            0 <= i <= n,
            n == a@.len() == b@.len(),
            r@.len() == i,
            forall|j: int| 0 <= j < i ==> r@[j] == sat_add_u64(a@[j], b@[j]),
        decreases n - i,
    {
        r.push(a[i].saturating_add(b[i]));
        i += 1;
    }
    proof {
        assert(r@ =~= add_weights(a@, b@));
    }
    r
}

/// An exact copy of a bag.
pub fn copy_bag(b: &Bag) -> (r: Bag)
    ensures
        r@ == b@,
{
    let n = b.labels.len();
    let mut labels: Vec<Label> = Vec::new();
    let mut i: usize = 0;
    while i < n
        invariant
            0 <= i <= n,
            n == b.labels@.len(),
            labels@.len() == i,
            forall|j: int| 0 <= j < i ==> (#[trigger] labels@[j])@ == b.labels@[j]@,
        decreases n - i,
    {
        labels.push(b.labels[i].duplicate());
        i += 1;
    }
    let r = Bag { labels };
    proof {
        assert(r@ =~= b@);
    }
    r
}

/// The candidate label produced by traversing `e` from `l`, exactly as the
/// model's `make_candidate` describes.
fn candidate_exec(l: &Label, e: &Edge, rule: UpdateRule, disable_paths: bool) -> (c: Label)
    requires
        l.values@.len() == e.weights@.len(),
        l.hidden_values@.len() == e.hidden_weights@.len(),
        rule != UpdateRule::NoUpdate ==> l.values@.len() >= 2 && l.hidden_values@.len() >= 1,
    ensures
        c@ == make_candidate(SearchConfig { rule, disable_paths }, l@, e@),
{
    let values = add_weights_exec(&l.values, &e.weights);
    let hidden_values = add_weights_exec(&l.hidden_values, &e.hidden_weights);
    let path: Vec<usize> = if disable_paths {
        Vec::new()
    } else {
        let mut p = copy_vec_usize(&l.path);
        p.push(e.v);
        p
    };
    let base = Label { node_id: e.v, values, hidden_values, path };
    let ghost base_v = LabelV {
        node_id: e@.v,
        values: add_weights(l@.values, e@.weights),
        hidden_values: add_weights(l@.hidden_values, e@.hidden_weights),
        path: if disable_paths {
            Seq::empty()
        } else {
            l@.path.push(e@.v)
        },
    };
    proof {
        assert(base@ =~= base_v);
        if rule != UpdateRule::NoUpdate {
            assert(base@.hidden_values.len() >= 1);
            assert(base@.hidden_values[0] == sat_add_u64(l@.hidden_values[0], e@.hidden_weights[0]));
            assert(l@.hidden_values[0] <= base@.hidden_values[0]);
        }
    }
    let c = apply_rule(rule, l, &base);
    proof {
        assert(c@ == spec_apply_rule(rule, l@, base_v));
    }
    c
}

/// The single seed label of the one-node seeding modes: all costs zero,
/// elapsed seconds `time`, and the path starting at the seed node unless
/// tracking is off.
pub open spec fn seed_label_spec(
    g: crate::graph_cache::GraphV,
    disable_paths: bool,
    start: usize,
    time: u64,
) -> LabelV {
    LabelV {
        node_id: start,
        values: crate::graph_cache::zero_weights(g.dim_values as int),
        hidden_values: crate::graph_cache::zero_weights(g.dim_hidden as int).update(0, time),
        path: if disable_paths {
            Seq::empty()
        } else {
            seq![start]
        },
    }
}

/// The seed bags of the one-node seeding modes: one label at the start
/// node, every other bag empty.
pub open spec fn seed_bags_spec(
    g: crate::graph_cache::GraphV,
    disable_paths: bool,
    start: usize,
    time: u64,
) -> Seq<Seq<LabelV>> {
    Seq::new(
        g.node_count as nat,
        |v: int|
            if v == start {
                seq![seed_label_spec(g, disable_paths, start, time)]
            } else {
                Seq::empty()
            },
    )
}

/// The multi-criteria label-correcting engine.  It binds one shared
/// read-only graph store, carries the run options, and — once seeded —
/// holds the initial bags that `run` starts from.  Options may be changed
/// only before seeding.
pub struct MLC {
    pub graph: Arc<Graph>,
    pub update_rule: UpdateRule,
    pub disable_paths: bool,
    pub enable_limit: bool,
    pub seeded: bool,
    pub seed_bags: Bags,
}

impl MLC {
    /// The semantic part of the engine's options.
    pub open spec fn cfg(self) -> SearchConfig {
        SearchConfig { rule: self.update_rule, disable_paths: self.disable_paths }
    }

    /// The state a run starts from: the seed bags, and every seed label on
    /// the worklist in node order.
    pub open spec fn seed_state(self) -> StateV {
        StateV { bags: self.seed_bags@, queue: flatten_bags(self.seed_bags@) }
    }

    /// The engine invariant: a well-formed non-empty graph, an acceptable
    /// configuration, and — once seeded — well-formed seed bags.
    pub open spec fn wf(self) -> bool {
        &&& graph_wf(self.graph@)
        &&& cfg_ok(self.graph@, self.cfg())
        &&& self.graph@.node_count >= 1
        &&& self.seeded ==> {
            &&& self.seed_bags@.len() == self.graph@.node_count
            &&& forall|v: int|
                0 <= v < self.seed_bags@.len() ==> bag_wf(#[trigger] self.seed_bags@[v], v as usize)
            &&& forall|v: int, j: int|
                0 <= v < self.seed_bags@.len() && 0 <= j < self.seed_bags@[v].len() ==> label_valid(
                    self.graph@,
                    #[trigger] self.seed_bags@[v][j],
                )
        }
    }

    /// Binds a graph store.  Fails with `EmptyGraph` exactly when the store
    /// has no nodes.  The fresh engine has no rule installed, tracks paths,
    /// runs unlimited, and is not yet seeded.
    pub fn new(graph: Arc<Graph>) -> (r: Result<MLC, MlcError>)
        requires
            graph_wf(graph@),
        ensures
            graph@.node_count == 0 ==> r == Err::<MLC, MlcError>(MlcError::EmptyGraph),
            graph@.node_count > 0 ==> (r matches Ok(m) && m == (MLC {
                graph,
                update_rule: UpdateRule::NoUpdate,
                disable_paths: false,
                enable_limit: false,
                seeded: false,
                seed_bags: m.seed_bags,
            }) && m.wf()),
    {
        if graph.node_count == 0 {
            Err(MlcError::EmptyGraph)
        } else {
            Ok(
                MLC {
                    graph,
                    update_rule: UpdateRule::NoUpdate,
                    disable_paths: false,
                    enable_limit: false,
                    seeded: false,
                    seed_bags: Bags { bags: Vec::new() },
                },
            )
        }
    }

    /// Installs a pricing rule.  Options may change only before seeding; a
    /// rule reads the price objective, so the graph must carry at least two
    /// objectives.
    pub fn set_update_label_func(&mut self, rule: UpdateRule)
        requires
            old(self).wf(),
            !old(self).seeded,
            rule != UpdateRule::NoUpdate ==> old(self).graph@.dim_values >= 2,
        ensures
            *final(self) == (MLC { update_rule: rule, ..*old(self) }),
            final(self).wf(),
    {
        self.update_rule = rule;
    }

    /// Disables or re-enables path tracking, before seeding.
    pub fn set_disable_paths(&mut self, disable_paths: bool)
        requires
            old(self).wf(),
            !old(self).seeded,
        ensures
            *final(self) == (MLC { disable_paths, ..*old(self) }),
            final(self).wf(),
    {
        self.disable_paths = disable_paths;
    }

    /// Bounds the work of a run to [`STEP_LIMIT`] processed labels, before
    /// seeding.
    pub fn set_enable_limit(&mut self, enable_limit: bool)
        requires
            old(self).wf(),
            !old(self).seeded,
        ensures
            *final(self) == (MLC { enable_limit, ..*old(self) }),
            final(self).wf(),
    {
        self.enable_limit = enable_limit;
    }

    /// Seeds the search at one node with zero accumulated cost and zero
    /// elapsed time.
    pub fn set_start_node(&mut self, start: usize)
        requires
            old(self).wf(),
            start < old(self).graph@.node_count,
        ensures
            *final(self) == (MLC { seeded: true, seed_bags: final(self).seed_bags, ..*old(self) }),
            final(self).seed_bags@ == seed_bags_spec(old(self).graph@, old(self).disable_paths, start, 0),
            final(self).wf(),
            final(self).seeded,
    {
        self.set_start_node_with_time(start, 0);
    }

    /// Seeds the search at one node with zero accumulated cost and `time`
    /// already-elapsed seconds, so that interval crossings of a pricing
    /// rule are counted relative to that baseline.
    pub fn set_start_node_with_time(&mut self, start: usize, time: u64)
        requires
            old(self).wf(),
            start < old(self).graph@.node_count,
        ensures
            *final(self) == (MLC { seeded: true, seed_bags: final(self).seed_bags, ..*old(self) }),
            final(self).seed_bags@ == seed_bags_spec(old(self).graph@, old(self).disable_paths, start, time),
            final(self).wf(),
            final(self).seeded,
    {
        let n = self.graph.node_count;
        let k = self.graph.dim_values;
        let m = self.graph.dim_hidden;
        let values = crate::graph_cache::make_zero_vec(k);
        let mut hidden_values = crate::graph_cache::make_zero_vec(m);
        hidden_values[0] = time;
        let path: Vec<usize> = if self.disable_paths {
            Vec::new()
        } else {
            let mut p: Vec<usize> = Vec::new();
            p.push(start);
            p
        };
        let seed = Label { node_id: start, values, hidden_values, path };
        proof {
            assert(seed@ =~= seed_label_spec(old(self).graph@, old(self).disable_paths, start, time));
        }
        let mut bags: Vec<Bag> = Vec::new();
        let mut v: usize = 0;
        while v < n
            invariant
                0 <= v <= n,
                bags@.len() == v,
                start < n,
                seed@ == seed_label_spec(old(self).graph@, old(self).disable_paths, start, time),
                forall|w: int|
                    0 <= w < v ==> (#[trigger] bags@[w])@ == if w == start {
                        seq![seed_label_spec(old(self).graph@, old(self).disable_paths, start, time)]
                    } else {
                        Seq::<LabelV>::empty()
                    },
            decreases n - v,
        {
            if v == start {
                let mut labels: Vec<Label> = Vec::new();
                labels.push(seed.duplicate());
                let b = Bag { labels };
                proof {
                    assert(b@ =~= seq![seed_label_spec(old(self).graph@, old(self).disable_paths, start, time)]);
                }
                bags.push(b);
            } else {
                bags.push(Bag::new());
            }
            v += 1;
        }
        self.seed_bags = Bags { bags };
        self.seeded = true;
        proof {
            assert(self.seed_bags@ =~= seed_bags_spec(old(self).graph@, old(self).disable_paths, start, time));
            assert forall|w: int|
                0 <= w < self.seed_bags@.len() implies bag_wf(
                #[trigger] self.seed_bags@[w],
                w as usize,
            ) by {
                if w == start {
                    assert(self.seed_bags@[w].len() == 1);
                }
            }
        }
    }

    /// Seeds the search from caller-supplied bags, composing independently
    /// computed frontiers.  Each supplied label must sit in the bag of its
    /// own node and have the graph's dimensions.  Within each bag,
    /// dominance pruning is applied on the way in, so the bag invariant
    /// holds from the start; the labels of one bag keep their order.
    pub fn set_bags(&mut self, bags: Bags)
        requires
            old(self).wf(),
            bags@.len() == old(self).graph@.node_count,
            forall|v: int, j: int|
                0 <= v < bags@.len() && 0 <= j < bags@[v].len() ==> (#[trigger] bags@[v][j]).node_id
                    == v && label_valid(old(self).graph@, bags@[v][j]),
        ensures
            *final(self) == (MLC { seeded: true, seed_bags: final(self).seed_bags, ..*old(self) }),
            final(self).seed_bags@.len() == bags@.len(),
            forall|v: int|
                0 <= v < bags@.len() ==> #[trigger] final(self).seed_bags@[v] == bag_from_labels(
                    bags@[v],
                ),
            final(self).wf(),
            final(self).seeded,
    {
        let n = bags.bags.len();
        let mut pruned: Vec<Bag> = Vec::new();
        let mut v: usize = 0;
        while v < n
            invariant
                0 <= v <= n,
                n == bags@.len(),
                pruned@.len() == v,
                forall|w: int, j: int|
                    0 <= w < bags@.len() && 0 <= j < bags@[w].len() ==> (#[trigger] bags@[w][j]).node_id
                        == w && label_valid(old(self).graph@, bags@[w][j]),
                forall|w: int|
                    0 <= w < v ==> (#[trigger] pruned@[w])@ == bag_from_labels(bags@[w]),
            decreases n - v,
        {
            let src = &bags.bags[v];
            let ln = src.labels.len();
            let mut b = Bag::new();
            let mut j: usize = 0;
            while j < ln
                invariant
                    0 <= j <= ln,
                    ln == src.labels@.len(),
                    src@ == bags@[v as int],
                    b@ == bag_from_labels(src@.subrange(0, j as int)),
                decreases ln - j,
            {
                proof {
                    assert(src@.subrange(0, j + 1 as int).drop_last() =~= src@.subrange(
                        0,
                        j as int,
                    ));
                    assert(src@.subrange(0, j + 1 as int).last() == src@[j as int]);
                    assert(src@[j as int] == src.labels@[j as int]@);
                }
                let _ = b.try_insert(&src.labels[j]);
                j += 1;
            }
            proof {
                assert(src@.subrange(0, ln as int) =~= src@);
            }
            pruned.push(b);
            v += 1;
        }
        self.seed_bags = Bags { bags: pruned };
        self.seeded = true;
        proof {
            let g = old(self).graph@;
            assert(self.seed_bags@.len() == bags@.len());
            assert forall|w: int| 0 <= w < bags@.len() implies bag_wf(
                #[trigger] self.seed_bags@[w],
                w as usize,
            ) && (forall|j: int|
                0 <= j < self.seed_bags@[w].len() ==> label_valid(
                    g,
                    #[trigger] self.seed_bags@[w][j],
                )) by {
                lemma_bag_from_labels_wf(g, bags@[w], w as usize);
            }
        }
    }
}

/// The deep view of a vector of bags.
pub open spec fn bags_view(bs: Seq<Bag>) -> Seq<Seq<LabelV>> {
    bs.map_values(|b: Bag| b@)
}

/// The deep view of a vector of labels.
pub open spec fn labels_view(ls: Seq<Label>) -> Seq<LabelV> {
    ls.map_values(|l: Label| l@)
}

impl MLC {
    /// Runs the label-correcting fixed point from the seeded state and
    /// returns the final bags together with a completeness flag: `true`
    /// when the worklist emptied (the search converged), `false` when the
    /// step limit stopped the run first, in which case the bags are a sound
    /// but possibly partial frontier.  Fails with `NoSeed` exactly when no
    /// seeding call was made.  The engine itself is untouched: a failed or
    /// truncated run leaves no observable state behind, and the same engine
    /// can run again.
    ///
    /// The result is pinned exactly: it is the model's `iterate`, applied
    /// to the seeded state for the configured budget of steps.  Every
    /// returned bag therefore satisfies the bag invariant, and two runs
    /// with the same graph, seed and options return the same bags.
    pub fn run(&self) -> (r: Result<(Bags, bool), MlcError>)
        requires
            self.wf(),
        ensures
            !self.seeded ==> r == Err::<(Bags, bool), MlcError>(MlcError::NoSeed),
            self.seeded ==> (r matches Ok(p) && {
                let fin = iterate(
                    self.graph@,
                    self.cfg(),
                    self.seed_state(),
                    run_budget(self.enable_limit) as nat,
                );
                &&& p.0@ == fin.bags
                &&& p.1 == (fin.queue.len() == 0)
                &&& state_wf(self.graph@, fin)
                &&& forall|v: int| 0 <= v < p.0@.len() ==> bag_wf(#[trigger] p.0@[v], v as usize)
                &&& exists|fuel: nat|
                    state_derived_upto(
                        self.graph@,
                        self.cfg(),
                        flatten_bags(self.seed_bags@),
                        fin,
                        fuel,
                    )
            }),
    {
        if !self.seeded {
            return Err(MlcError::NoSeed);
        }
        let ghost g = self.graph@;
        let ghost cfg = self.cfg();
        let ghost init = self.seed_state();
        proof {
            lemma_flatten_valid(g, self.seed_bags@);
            assert(state_wf(g, init));
        }
        let nb = self.seed_bags.bags.len();
        let mut bags: Vec<Bag> = Vec::new();
        let mut v: usize = 0;
        while v < nb
            invariant
                0 <= v <= nb,
                nb == self.seed_bags.bags@.len(),
                bags@.len() == v,
                forall|w: int| 0 <= w < v ==> (#[trigger] bags@[w])@ == self.seed_bags@[w],
            decreases nb - v,
        {
            proof {
                assert(self.seed_bags@[v as int] == self.seed_bags.bags@[v as int]@);
            }
            bags.push(copy_bag(&self.seed_bags.bags[v]));
            v += 1;
        }
        proof {
            assert(bags_view(bags@) =~= self.seed_bags@);
        }
        let mut queue: Vec<Label> = Vec::new();
        let mut v: usize = 0;
        while v < nb
            invariant
                0 <= v <= nb,
                nb == bags@.len(),
                bags_view(bags@) == self.seed_bags@,
                labels_view(queue@) == flatten_bags(bags_view(bags@).subrange(0, v as int)),
            decreases nb - v,
        {
            let ln = bags[v].labels.len();
            let mut j: usize = 0;
            while j < ln
                invariant
                    0 <= j <= ln,
                    0 <= v < nb,
                    nb == bags@.len(),
                    bags_view(bags@) == self.seed_bags@,
                    ln == bags@[v as int].labels@.len(),
                    labels_view(queue@) == flatten_bags(bags_view(bags@).subrange(0, v as int))
                        + bags_view(bags@)[v as int].subrange(0, j as int),
                decreases ln - j,
            {
                let ghost q0 = queue@;
                queue.push(bags[v].labels[j].duplicate());
                proof {
                    let bv = bags_view(bags@);
                    let x = bv[v as int][j as int];
                    assert(x == bags@[v as int].labels@[j as int]@);
                    assert(labels_view(queue@) =~= labels_view(q0).push(x));
                    assert(bv[v as int].subrange(0, j as int).push(x) =~= bv[v as int].subrange(
                        0,
                        j + 1 as int,
                    ));
                    assert((flatten_bags(bv.subrange(0, v as int)) + bv[v as int].subrange(
                        0,
                        j as int,
                    )).push(x) =~= flatten_bags(bv.subrange(0, v as int)) + bv[v as int].subrange(
                        0,
                        j + 1 as int,
                    ));
                }
                j += 1;
            }
            proof {
                let bv = bags_view(bags@);
                assert(bv.subrange(0, v + 1 as int).drop_last() =~= bv.subrange(0, v as int));
                assert(bv.subrange(0, v + 1 as int).last() == bv[v as int]);
                assert(bv[v as int].subrange(0, ln as int) =~= bv[v as int]);
                assert(labels_view(queue@) == flatten_bags(bv.subrange(0, v + 1 as int)));
            }
            v += 1;
        }
        proof {
            assert(bags_view(bags@).subrange(0, nb as int) =~= bags_view(bags@));
            assert(StateV { bags: bags_view(bags@), queue: labels_view(queue@) } =~= init);
        }
        let budget: u64 = if self.enable_limit {
            STEP_LIMIT
        } else {
            u64::MAX
        };
        let mut steps: u64 = 0;
        while queue.len() > 0 && steps < budget
            invariant
                self.wf(),
                self.seeded,
                g == self.graph@,
                cfg == self.cfg(),
                init == self.seed_state(),
                budget == run_budget(self.enable_limit),
                0 <= steps <= budget,
                state_wf(g, StateV { bags: bags_view(bags@), queue: labels_view(queue@) }),
                (StateV { bags: bags_view(bags@), queue: labels_view(queue@) }) == iterate(
                    g,
                    cfg,
                    init,
                    steps as nat,
                ),
            decreases budget - steps,
        {
            let ghost s_pre = StateV { bags: bags_view(bags@), queue: labels_view(queue@) };
            let l = queue.remove(0);
            let ghost s1 = StateV { bags: s_pre.bags, queue: s_pre.queue.drop_first() };
            proof {
                assert(l@ == s_pre.queue[0]);
                assert(label_valid(g, l@));
                assert(labels_view(queue@) =~= s_pre.queue.drop_first());
            }
            let en = self.graph.edges.len();
            let mut ei: usize = 0;
            while ei < en
                invariant
                    self.wf(),
                    g == self.graph@,
                    cfg == self.cfg(),
                    en == g.edges.len(),
                    0 <= ei <= en,
                    label_valid(g, l@),
                    bags@.len() == g.node_count,
                    relax_edges_from(
                        g,
                        cfg,
                        l@,
                        (StateV { bags: bags_view(bags@), queue: labels_view(queue@) }),
                        ei as int,
                    ) == relax_edges_from(g, cfg, l@, s1, 0),
                decreases en - ei,
            {
                let ghost s_cur = StateV { bags: bags_view(bags@), queue: labels_view(queue@) };
                let e = &self.graph.edges[ei];
                proof {
                    assert(e@ == g.edges[ei as int]);
                }
                if e.u == l.node_id {
                    let c = candidate_exec(&l, e, self.update_rule, self.disable_paths);
                    proof {
                        assert(c@ == make_candidate(cfg, l@, e@));
                        assert((bags_view(bags@))[e.v as int] == bags@[e.v as int]@);
                    }
                    let ghost old_bag = bags@[e.v as int]@;
                    let inserted = bags[e.v].try_insert(&c);
                    if inserted {
                        queue.push(c);
                        proof {
                            assert(bags_view(bags@) =~= s_cur.bags.update(
                                e.v as int,
                                bag_after_insert(old_bag, c@),
                            ));
                            assert(labels_view(queue@) =~= s_cur.queue.push(c@));
                            assert(StateV { bags: bags_view(bags@), queue: labels_view(queue@) }
                                == relax_one(cfg, l@, e@, s_cur));
                        }
                    } else {
                        proof {
                            assert(bags_view(bags@) =~= s_cur.bags);
                            assert(StateV { bags: bags_view(bags@), queue: labels_view(queue@) }
                                == relax_one(cfg, l@, e@, s_cur));
                        }
                    }
                } else {
                    proof {
                        assert(StateV { bags: bags_view(bags@), queue: labels_view(queue@) }
                            == s_cur);
                    }
                }
                ei += 1;
            }
            proof {
                let s_end = StateV { bags: bags_view(bags@), queue: labels_view(queue@) };
                assert(s_end == relax_edges_from(g, cfg, l@, s1, 0));
                assert(step(g, cfg, s_pre) == s_end);
                assert(iterate(g, cfg, init, (steps + 1) as nat) == s_end);
                lemma_step_preserves(g, cfg, s_pre);
            }
            steps += 1;
        }
        let complete = queue.len() == 0;
        proof {
            let cur = StateV { bags: bags_view(bags@), queue: labels_view(queue@) };
            if complete && steps < budget {
                lemma_iterate_stable(g, cfg, init, steps as nat, budget as nat);
            }
            assert(cur == iterate(g, cfg, init, run_budget(self.enable_limit) as nat));
            let seeds = flatten_bags(self.seed_bags@);
            lemma_seed_state_derived(g, cfg, self.seed_bags@);
            assert(init == StateV { bags: self.seed_bags@, queue: seeds });
            lemma_iterate_derived(g, cfg, seeds, init, run_budget(self.enable_limit) as nat, 0);
        }
        let bags_out = Bags { bags };
        proof {
            assert(bags_out@ =~= bags_view(bags_out.bags@));
        }
        Ok((bags_out, complete))
    }
}

/// Relies on `Arc::clone` of std: the returned handle shares the same
/// allocation, so it denotes the same graph store.
#[verifier::external_body]
fn clone_graph_ref(g: &Arc<Graph>) -> (r: Arc<Graph>)
    ensures
        r == *g,
{
    Arc::clone(g)
}

/// The converged (or budget-truncated) state of a run seeded at one node:
/// what `run_mlc` and `run_mlc_with_node_and_time` return.
pub open spec fn run_from_node_spec(
    g: crate::graph_cache::GraphV,
    rule: UpdateRule,
    disable_paths: bool,
    enable_limit: bool,
    start: usize,
    time: u64,
) -> StateV {
    let sb = seed_bags_spec(g, disable_paths, start, time);
    iterate(
        g,
        SearchConfig { rule, disable_paths },
        StateV { bags: sb, queue: flatten_bags(sb) },
        run_budget(enable_limit) as nat,
    )
}

/// The rule an optional registry name selects: no name means no rule.
pub open spec fn opt_rule_spec(name: Option<&str>) -> Result<UpdateRule, MlcError> {
    match name {
        Some(n) => spec_rule_of_name(n@),
        None => Ok(UpdateRule::NoUpdate),
    }
}

/// Computes the full Pareto frontier reachable from `start_node_id` over
/// the cached graph store, with paths tracked, no pricing rule and no work
/// limit.  Fails with `GraphNotSet`, `EmptyGraph` or `NodeOutOfRange` as
/// the cache and the start node demand.
pub fn run_mlc(graph_cache: &GraphCache, start_node_id: usize) -> (r: Result<Bags, MlcError>)
    requires
        graph_cache.graph matches Some(g) ==> graph_wf(g@),
    ensures
        match graph_cache.graph {
            None => r == Err::<Bags, MlcError>(MlcError::GraphNotSet),
            Some(g) => {
                if g@.node_count == 0 {
                    r == Err::<Bags, MlcError>(MlcError::EmptyGraph)
                } else if start_node_id >= g@.node_count {
                    r == Err::<Bags, MlcError>(MlcError::NodeOutOfRange)
                } else {
                    let fin = run_from_node_spec(
                        g@,
                        UpdateRule::NoUpdate,
                        false,
                        false,
                        start_node_id,
                        0,
                    );
                    r matches Ok(bags) && bags@ == fin.bags && state_wf(g@, fin)
                }
            },
        },
{
    let g = match &graph_cache.graph {
        Some(g) => g,
        None => {
            return Err(MlcError::GraphNotSet);
        },
    };
    let mut m = match MLC::new(clone_graph_ref(g)) {
        Ok(m) => m,
        Err(e) => {
            return Err(e);
        },
    };
    if start_node_id >= m.graph.node_count {
        return Err(MlcError::NodeOutOfRange);
    }
    m.set_start_node(start_node_id);
    match m.run() {
        Ok(p) => Ok(p.0),
        Err(e) => Err(e),
    }
}

/// As [`run_mlc`], but seeded with `time` already-elapsed seconds and with
/// the caller's options: `disable_paths` and `enable_limit` default to
/// false, a missing rule name means no rule, and an unknown one fails with
/// `UnknownUpdateRule`.  A pricing rule reads the price objective, so it
/// demands a graph with at least two objectives.
pub fn run_mlc_with_node_and_time(
    graph_cache: &GraphCache,
    start_node_id: usize,
    time: u64,
    disable_paths: Option<bool>,
    update_label_func: Option<&str>,
    enable_limit: Option<bool>,
) -> (r: Result<Bags, MlcError>)
    requires
        match graph_cache.graph {
            Some(g) => graph_wf(g@) && (match opt_rule_spec(update_label_func) {
                Ok(rule) => rule != UpdateRule::NoUpdate ==> g@.dim_values >= 2,
                Err(e) => true,
            }),
            None => true,
        },
    ensures
        match graph_cache.graph {
            None => r == Err::<Bags, MlcError>(MlcError::GraphNotSet),
            Some(g) => {
                if g@.node_count == 0 {
                    r == Err::<Bags, MlcError>(MlcError::EmptyGraph)
                } else {
                    match opt_rule_spec(update_label_func) {
                        Err(e) => r == Err::<Bags, MlcError>(e),
                        Ok(rule) => {
                            if start_node_id >= g@.node_count {
                                r == Err::<Bags, MlcError>(MlcError::NodeOutOfRange)
                            } else {
                                let fin = run_from_node_spec(
                                    g@,
                                    rule,
                                    spec_unwrap_or(disable_paths, false),
                                    spec_unwrap_or(enable_limit, false),
                                    start_node_id,
                                    time,
                                );
                                r matches Ok(bags) && bags@ == fin.bags && state_wf(g@, fin)
                            }
                        },
                    }
                }
            },
        },
{
    let g = match &graph_cache.graph {
        Some(g) => g,
        None => {
            return Err(MlcError::GraphNotSet);
        },
    };
    let mut m = match MLC::new(clone_graph_ref(g)) {
        Ok(m) => m,
        Err(e) => {
            return Err(e);
        },
    };
    let rule = match update_label_func {
        Some(name) => match UpdateRule::from_str(name) {
            Ok(rule) => rule,
            Err(e) => {
                return Err(e);
            },
        },
        None => UpdateRule::NoUpdate,
    };
    if start_node_id >= m.graph.node_count {
        return Err(MlcError::NodeOutOfRange);
    }
    if let Some(dp) = disable_paths {
        m.set_disable_paths(dp);
    }
    m.set_update_label_func(rule);
    if let Some(el) = enable_limit {
        m.set_enable_limit(el);
    }
    m.set_start_node_with_time(start_node_id, time);
    match m.run() {
        Ok(p) => Ok(p.0),
        Err(e) => Err(e),
    }
}

/// An `Option`'s value, or the default.
pub open spec fn spec_unwrap_or<T>(o: Option<T>, d: T) -> T {
    match o {
        Some(x) => x,
        None => d,
    }
}

/// The converged (or budget-truncated) state of a run seeded from
/// caller-supplied bags (pruned on the way in): what `run_mlc_with_bags`
/// returns.
pub open spec fn run_from_bags_spec(
    g: crate::graph_cache::GraphV,
    rule: UpdateRule,
    disable_paths: bool,
    enable_limit: bool,
    supplied: Seq<Seq<LabelV>>,
) -> StateV {
    let sb = Seq::new(supplied.len(), |v: int| bag_from_labels(supplied[v]));
    iterate(
        g,
        SearchConfig { rule, disable_paths },
        StateV { bags: sb, queue: flatten_bags(sb) },
        run_budget(enable_limit) as nat,
    )
}

/// As [`run_mlc_with_node_and_time`], but resuming from caller-supplied
/// bags: one bag per node, each label sitting in the bag of its own node
/// with the graph's dimensions.  Each bag is dominance-pruned on the way
/// in, so the search starts from a well-formed frontier.
pub fn run_mlc_with_bags(
    graph_cache: &GraphCache,
    bags: Bags,
    update_label_func: Option<&str>,
    disable_paths: Option<bool>,
    enable_limit: Option<bool>,
) -> (r: Result<Bags, MlcError>)
    requires
        match graph_cache.graph {
            Some(g) => {
                &&& graph_wf(g@)
                &&& bags@.len() == g@.node_count
                &&& forall|v: int, j: int|
                    0 <= v < bags@.len() && 0 <= j < bags@[v].len() ==> (#[trigger] bags@[v][
                        j
                    ]).node_id == v && label_valid(g@, bags@[v][j])
                &&& match opt_rule_spec(update_label_func) {
                    Ok(rule) => rule != UpdateRule::NoUpdate ==> g@.dim_values >= 2,
                    Err(e) => true,
                }
            },
            None => true,
        },
    ensures
        match graph_cache.graph {
            None => r == Err::<Bags, MlcError>(MlcError::GraphNotSet),
            Some(g) => {
                if g@.node_count == 0 {
                    r == Err::<Bags, MlcError>(MlcError::EmptyGraph)
                } else {
                    match opt_rule_spec(update_label_func) {
                        Err(e) => r == Err::<Bags, MlcError>(e),
                        Ok(rule) => {
                            let fin = run_from_bags_spec(
                                g@,
                                rule,
                                spec_unwrap_or(disable_paths, false),
                                spec_unwrap_or(enable_limit, false),
                                bags@,
                            );
                            r matches Ok(out) && out@ == fin.bags && state_wf(g@, fin)
                        },
                    }
                }
            },
        },
{
    let g = match &graph_cache.graph {
        Some(g) => g,
        None => {
            return Err(MlcError::GraphNotSet);
        },
    };
    let mut m = match MLC::new(clone_graph_ref(g)) {
        Ok(m) => m,
        Err(e) => {
            return Err(e);
        },
    };
    let rule = match update_label_func {
        Some(name) => match UpdateRule::from_str(name) {
            Ok(rule) => rule,
            Err(e) => {
                return Err(e);
            },
        },
        None => UpdateRule::NoUpdate,
    };
    if let Some(el) = enable_limit {
        m.set_enable_limit(el);
    }
    if let Some(dp) = disable_paths {
        m.set_disable_paths(dp);
    }
    m.set_update_label_func(rule);
    let ghost supplied = bags@;
    m.set_bags(bags);
    proof {
        assert(m.seed_bags@ =~= Seq::new(supplied.len(), |v: int| bag_from_labels(supplied[v])));
    }
    match m.run() {
        Ok(p) => Ok(p.0),
        Err(e) => Err(e),
    }
}

/// The bag that accepting a sequence of labels in order builds: each label
/// is offered to the bag under the usual dominance test.
pub open spec fn bag_from_labels(ls: Seq<LabelV>) -> Seq<LabelV>
    decreases ls.len(),
{
    if ls.len() == 0 {
        Seq::empty()
    } else {
        let b = bag_from_labels(ls.drop_last());
        if bag_blocks(b, ls.last()) {
            b
        } else {
            bag_after_insert(b, ls.last())
        }
    }
}

/// A bag built from labels of one node is well-formed, and its members are
/// among the offered labels.
proof fn lemma_bag_from_labels_wf(g: crate::graph_cache::GraphV, ls: Seq<LabelV>, node: usize)
    requires
        forall|j: int|
            0 <= j < ls.len() ==> (#[trigger] ls[j]).node_id == node && label_valid(g, ls[j]),
    ensures
        bag_wf(bag_from_labels(ls), node),
        forall|j: int|
            0 <= j < bag_from_labels(ls).len() ==> label_valid(
                g,
                #[trigger] bag_from_labels(ls)[j],
            ),
    decreases ls.len(),
{
    if ls.len() > 0 {
        let front = ls.drop_last();
        assert forall|j: int|
            0 <= j < front.len() implies (#[trigger] front[j]).node_id == node && label_valid(
            g,
            front[j],
        ) by {
            assert(front[j] == ls[j]);
        }
        lemma_bag_from_labels_wf(g, front, node);
        let b = bag_from_labels(front);
        let x = ls.last();
        assert(x.node_id == node && label_valid(g, x));
        if !bag_blocks(b, x) {
            crate::label::lemma_insert_preserves_wf(b, x, node);
            let r = bag_after_insert(b, x);
            let p = crate::label::prune_dominated(b, x);
            crate::label::lemma_prune_membership(b, x);
            assert forall|j: int| 0 <= j < r.len() implies label_valid(g, #[trigger] r[j]) by {
                if j < p.len() {
                    let k = choose|k: int| 0 <= k < b.len() && b[k] == p[j];
                    assert(label_valid(g, b[k]));
                }
            }
        }
    }
}

} // verus!
