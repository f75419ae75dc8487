use crate::graph_cache::{graph_wf, EdgeV, GraphV};
use crate::label::{
    bag_after_insert, bag_blocks, bag_wf, lemma_insert_preserves_wf, spec_apply_rule, LabelV,
    UpdateRule,
};
use vstd::prelude::*;

verus! {

/// The options that change what a run computes: the installed pricing rule
/// and whether paths are tracked.
#[verifier::ext_equal]
pub ghost struct SearchConfig {
    pub rule: UpdateRule,
    pub disable_paths: bool,
}

/// A configuration the engine accepts for a graph: a pricing rule reads
/// the price objective `values[1]`, so it needs at least two objectives.
pub open spec fn cfg_ok(g: GraphV, cfg: SearchConfig) -> bool {
    cfg.rule is NoUpdate || g.dim_values >= 2
}

/// The whole search state: one bag per node, and the worklist of labels
/// whose outgoing edges are still to be relaxed, in FIFO order.
#[verifier::ext_equal]
pub ghost struct StateV {
    pub bags: Seq<Seq<LabelV>>,
    pub queue: Seq<LabelV>,
}

/// Addition that stops at `u64::MAX` instead of wrapping.
pub open spec fn sat_add_u64(a: u64, b: u64) -> u64 {
    if a + b > u64::MAX {
        u64::MAX
    } else {
        (a + b) as u64
    }
}

/// Element-wise saturating vector addition; the result keeps the dimension
/// of the left operand.
pub open spec fn add_weights(a: Seq<u64>, b: Seq<u64>) -> Seq<u64> {
    Seq::new(
        a.len(),
        |i: int|
            sat_add_u64(
                a[i],
                if 0 <= i < b.len() {
                    b[i]
                } else {
                    0u64
                },
            ),
    )
}

/// The candidate label that traversing edge `e` from settled label `l`
/// produces: costs and hidden state accumulate element-wise, the path grows
/// by the edge's head unless path tracking is disabled, and the installed
/// rule then adjusts the result.
pub open spec fn make_candidate(cfg: SearchConfig, l: LabelV, e: EdgeV) -> LabelV {
    let base = LabelV {
        node_id: e.v,
        values: add_weights(l.values, e.weights),
        hidden_values: add_weights(l.hidden_values, e.hidden_weights),
        path: if cfg.disable_paths {
            Seq::empty()
        } else {
            l.path.push(e.v)
        },
    };
    spec_apply_rule(cfg.rule, l, base)
}

/// One relaxation: the candidate is offered to the head node's bag; when it
/// is not blocked, the bag is rewritten and the candidate joins the
/// worklist.
pub open spec fn relax_one(cfg: SearchConfig, l: LabelV, e: EdgeV, s: StateV) -> StateV {
    let c = make_candidate(cfg, l, e);
    if e.v < s.bags.len() && !bag_blocks(s.bags[e.v as int], c) {
        StateV {
            bags: s.bags.update(e.v as int, bag_after_insert(s.bags[e.v as int], c)),
            queue: s.queue.push(c),
        }
    } else {
        s
    }
}

/// Relaxes, in order, every edge at index `i` or later whose tail is the
/// settled label's node.
pub open spec fn relax_edges_from(
    g: GraphV,
    cfg: SearchConfig,
    l: LabelV,
    s: StateV,
    i: int,
) -> StateV
    decreases g.edges.len() - i,
{
    if i < 0 || i >= g.edges.len() {
        s
    } else {
        let s2 = if g.edges[i].u == l.node_id {
            relax_one(cfg, l, g.edges[i], s)
        } else {
            s
        };
        relax_edges_from(g, cfg, l, s2, i + 1)
    }
}

/// One step of the label-correcting fixed point: the worklist's front label
/// is removed and all its outgoing edges are relaxed.  A state with an
/// empty worklist is converged, and a step leaves it unchanged.
pub open spec fn step(g: GraphV, cfg: SearchConfig, s: StateV) -> StateV {
    if s.queue.len() == 0 {
        s
    } else {
        let l = s.queue[0];
        relax_edges_from(g, cfg, l, StateV { bags: s.bags, queue: s.queue.drop_first() }, 0)
    }
}

/// `n` steps of the fixed point.
pub open spec fn iterate(g: GraphV, cfg: SearchConfig, s: StateV, n: nat) -> StateV
    decreases n,
{
    if n == 0 {
        s
    } else {
        step(g, cfg, iterate(g, cfg, s, (n - 1) as nat))
    }
}

/// A label the engine may hold: its node exists and its vectors have the
/// graph's dimensions.
pub open spec fn label_valid(g: GraphV, l: LabelV) -> bool {
    &&& l.node_id < g.node_count
    &&& l.values.len() == g.dim_values
    &&& l.hidden_values.len() == g.dim_hidden
}

/// The engine's invariant: one bag per node, each bag well-formed for its
/// node, and every label in a bag or on the worklist valid.
pub open spec fn state_wf(g: GraphV, s: StateV) -> bool {
    &&& s.bags.len() == g.node_count
    &&& forall|v: int| 0 <= v < s.bags.len() ==> bag_wf(#[trigger] s.bags[v], v as usize)
    &&& forall|v: int, j: int|
        0 <= v < s.bags.len() && 0 <= j < s.bags[v].len() ==> label_valid(
            g,
            #[trigger] s.bags[v][j],
        )
    &&& forall|j: int| 0 <= j < s.queue.len() ==> label_valid(g, #[trigger] s.queue[j])
}

/// A candidate computed from a valid label along a well-formed edge is
/// valid and belongs to the edge's head.
pub proof fn lemma_candidate_valid(g: GraphV, cfg: SearchConfig, l: LabelV, e: EdgeV)
    requires
        cfg_ok(g, cfg),
        label_valid(g, l),
        e.v < g.node_count,
        e.weights.len() == g.dim_values,
        e.hidden_weights.len() == g.dim_hidden,
    ensures
        label_valid(g, make_candidate(cfg, l, e)),
        make_candidate(cfg, l, e).node_id == e.v,
{
    let base = LabelV {
        node_id: e.v,
        values: add_weights(l.values, e.weights),
        hidden_values: add_weights(l.hidden_values, e.hidden_weights),
        path: if cfg.disable_paths {
            Seq::empty()
        } else {
            l.path.push(e.v)
        },
    };
    let c = make_candidate(cfg, l, e);
    assert(c == spec_apply_rule(cfg.rule, l, base));
    assert(base.values.len() == g.dim_values);
    assert(base.hidden_values.len() == g.dim_hidden);
    match cfg.rule {
        UpdateRule::NoUpdate => {
            assert(c == base);
        },
        UpdateRule::NextBikeTariff => {
            assert(c.values.len() == base.values.len());
        },
        UpdateRule::NextBikeNoTariff => {
            assert(c.values.len() == base.values.len());
        },
        UpdateRule::PersonalCar => {
            assert(c.values.len() == base.values.len());
        },
    }
}

/// Relaxing one edge preserves the engine invariant.
proof fn lemma_relax_one_preserves(g: GraphV, cfg: SearchConfig, l: LabelV, e: EdgeV, s: StateV)
    requires
        cfg_ok(g, cfg),
        label_valid(g, l),
        e.v < g.node_count,
        e.weights.len() == g.dim_values,
        e.hidden_weights.len() == g.dim_hidden,
        state_wf(g, s),
    ensures
        state_wf(g, relax_one(cfg, l, e, s)),
{
    let c = make_candidate(cfg, l, e);
    lemma_candidate_valid(g, cfg, l, e);
    if e.v < s.bags.len() && !bag_blocks(s.bags[e.v as int], c) {
        lemma_insert_preserves_wf(s.bags[e.v as int], c, e.v);
        let s2 = relax_one(cfg, l, e, s);
        assert forall|v: int, j: int|
            0 <= v < s2.bags.len() && 0 <= j < s2.bags[v].len() implies label_valid(
            g,
            #[trigger] s2.bags[v][j],
        ) by {
            if v == e.v as int {
                let b = s.bags[v];
                let p = crate::label::prune_dominated(b, c);
                crate::label::lemma_prune_membership(b, c);
                if j < p.len() {
                    let k = choose|k: int| 0 <= k < b.len() && b[k] == p[j];
                    assert(label_valid(g, b[k]));
                } else {
                    assert(s2.bags[v][j] == c);
                }
            }
        }
    }
}

/// Relaxing the remaining edges preserves the engine invariant.
proof fn lemma_relax_from_preserves(g: GraphV, cfg: SearchConfig, l: LabelV, s: StateV, i: int)
    requires
        graph_wf(g),
        cfg_ok(g, cfg),
        label_valid(g, l),
        state_wf(g, s),
    ensures
        state_wf(g, relax_edges_from(g, cfg, l, s, i)),
    decreases g.edges.len() - i,
{
    if i < 0 || i >= g.edges.len() {
    } else {
        let s2 = if g.edges[i].u == l.node_id {
            relax_one(cfg, l, g.edges[i], s)
        } else {
            s
        };
        if g.edges[i].u == l.node_id {
            lemma_relax_one_preserves(g, cfg, l, g.edges[i], s);
        }
        lemma_relax_from_preserves(g, cfg, l, s2, i + 1);
    }
}

/// One step preserves the engine invariant.
pub proof fn lemma_step_preserves(g: GraphV, cfg: SearchConfig, s: StateV)
    requires
        graph_wf(g),
        cfg_ok(g, cfg),
        state_wf(g, s),
    ensures
        state_wf(g, step(g, cfg, s)),
{
    if s.queue.len() > 0 {
        let l = s.queue[0];
        let s1 = StateV { bags: s.bags, queue: s.queue.drop_first() };
        lemma_relax_from_preserves(g, cfg, l, s1, 0);
    }
}

/// Every number of steps preserves the engine invariant.  In particular,
/// after any run every node's bag is free of dominated labels: the bag
/// invariant holds of whatever the search returns.
pub proof fn lemma_iterate_preserves(g: GraphV, cfg: SearchConfig, s: StateV, n: nat)
    requires
        graph_wf(g),
        cfg_ok(g, cfg),
        state_wf(g, s),
    ensures
        state_wf(g, iterate(g, cfg, s, n)),
    decreases n,
{
    if n > 0 {
        lemma_iterate_preserves(g, cfg, s, (n - 1) as nat);
        lemma_step_preserves(g, cfg, iterate(g, cfg, s, (n - 1) as nat));
    }
}

/// All seed labels in node order, bag order preserved: the initial
/// worklist.
pub open spec fn flatten_bags(bags: Seq<Seq<LabelV>>) -> Seq<LabelV>
    decreases bags.len(),
{
    if bags.len() == 0 {
        Seq::empty()
    } else {
        flatten_bags(bags.drop_last()) + bags.last()
    }
}

/// Every label of the flattened worklist is a label of some bag.
pub proof fn lemma_flatten_valid(g: GraphV, bags: Seq<Seq<LabelV>>)
    requires
        forall|v: int, j: int|
            0 <= v < bags.len() && 0 <= j < bags[v].len() ==> label_valid(g, #[trigger] bags[v][j]),
    ensures
        forall|k: int|
            0 <= k < flatten_bags(bags).len() ==> label_valid(g, #[trigger] flatten_bags(bags)[k]),
    decreases bags.len(),
{
    if bags.len() > 0 {
        let front = bags.drop_last();
        assert forall|v: int, j: int|
            0 <= v < front.len() && 0 <= j < front[v].len() implies label_valid(
            g,
            #[trigger] front[v][j],
        ) by {
            assert(front[v] == bags[v]);
        }
        lemma_flatten_valid(g, front);
        let f = flatten_bags(bags);
        let f0 = flatten_bags(front);
        assert forall|k: int| 0 <= k < f.len() implies label_valid(g, #[trigger] f[k]) by {
            if k < f0.len() {
                assert(f[k] == f0[k]);
            } else {
                assert(f[k] == bags.last()[k - f0.len()]);
                assert(bags.last() == bags[bags.len() - 1]);
            }
        }
    }
}

/// A label the engine can reach from one of the `seeds` by walking the
/// graph's edges: either a seed itself, or the candidate that some edge
/// traversal produces from a reachable label at the edge's tail.  `fuel`
/// bounds the walk's length.  This is the soundness notion of the search:
/// with no pricing rule installed, a derived label's cost vector is exactly
/// the element-wise saturating sum of a seed's costs and the weights of a
/// real edge walk, and its path records that walk's nodes.
pub open spec fn derived_label(
    g: GraphV,
    cfg: SearchConfig,
    seeds: Seq<LabelV>,
    l: LabelV,
    fuel: nat,
) -> bool
    decreases fuel,
{
    ||| seeds.contains(l)
    ||| (fuel > 0 && exists|i: int, p: LabelV|
        {
            &&& 0 <= i < g.edges.len()
            &&& p.node_id == g.edges[i].u
            &&& l == #[trigger] make_candidate(cfg, p, g.edges[i])
            &&& derived_label(g, cfg, seeds, p, (fuel - 1) as nat)
        })
}

/// Every label the state holds — in a bag or on the worklist — is derived
/// from a seed by a walk of at most `fuel` edges.
pub open spec fn state_derived_upto(
    g: GraphV,
    cfg: SearchConfig,
    seeds: Seq<LabelV>,
    s: StateV,
    fuel: nat,
) -> bool {
    &&& forall|v: int, j: int|
        0 <= v < s.bags.len() && 0 <= j < s.bags[v].len() ==> derived_label(
            g,
            cfg,
            seeds,
            #[trigger] s.bags[v][j],
            fuel,
        )
    &&& forall|j: int|
        0 <= j < s.queue.len() ==> derived_label(g, cfg, seeds, #[trigger] s.queue[j], fuel)
}

/// A longer walk budget derives no fewer labels.
pub proof fn lemma_derived_mono(
    g: GraphV,
    cfg: SearchConfig,
    seeds: Seq<LabelV>,
    l: LabelV,
    f1: nat,
    f2: nat,
)
    requires
        f1 <= f2,
        derived_label(g, cfg, seeds, l, f1),
    ensures
        derived_label(g, cfg, seeds, l, f2),
    decreases f1,
{
    if seeds.contains(l) {
    } else {
        let (i, p): (int, LabelV) = choose|i: int, p: LabelV|
            {
                &&& 0 <= i < g.edges.len()
                &&& p.node_id == g.edges[i].u
                &&& l == #[trigger] make_candidate(cfg, p, g.edges[i])
                &&& derived_label(g, cfg, seeds, p, (f1 - 1) as nat)
            };
        lemma_derived_mono(g, cfg, seeds, p, (f1 - 1) as nat, (f2 - 1) as nat);
        assert(0 <= i < g.edges.len() && p.node_id == g.edges[i].u && l == make_candidate(
            cfg,
            p,
            g.edges[i],
        ) && derived_label(g, cfg, seeds, p, (f2 - 1) as nat));
    }
}

/// A state's labels stay derived under a longer budget.
proof fn lemma_state_derived_mono(
    g: GraphV,
    cfg: SearchConfig,
    seeds: Seq<LabelV>,
    s: StateV,
    f1: nat,
    f2: nat,
)
    requires
        f1 <= f2,
        state_derived_upto(g, cfg, seeds, s, f1),
    ensures
        state_derived_upto(g, cfg, seeds, s, f2),
{
    assert forall|v: int, j: int|
        0 <= v < s.bags.len() && 0 <= j < s.bags[v].len() implies derived_label(
        g,
        cfg,
        seeds,
        #[trigger] s.bags[v][j],
        f2,
    ) by {
        lemma_derived_mono(g, cfg, seeds, s.bags[v][j], f1, f2);
    }
    assert forall|j: int| 0 <= j < s.queue.len() implies derived_label(
        g,
        cfg,
        seeds,
        #[trigger] s.queue[j],
        f2,
    ) by {
        lemma_derived_mono(g, cfg, seeds, s.queue[j], f1, f2);
    }
}

/// Relaxing one edge adds only labels derived from the seeds.
proof fn lemma_relax_one_derived(
    g: GraphV,
    cfg: SearchConfig,
    seeds: Seq<LabelV>,
    l: LabelV,
    i: int,
    s: StateV,
    fuel: nat,
)
    requires
        0 <= i < g.edges.len(),
        l.node_id == g.edges[i].u,
        derived_label(g, cfg, seeds, l, fuel),
        state_derived_upto(g, cfg, seeds, s, fuel),
    ensures
        state_derived_upto(g, cfg, seeds, relax_one(cfg, l, g.edges[i], s), (fuel + 1) as nat),
{
    let e = g.edges[i];
    let c = make_candidate(cfg, l, e);
    let f1 = (fuel + 1) as nat;
    assert(derived_label(g, cfg, seeds, c, f1)) by {
        assert((f1 - 1) as nat == fuel);
        assert(0 <= i < g.edges.len() && l.node_id == g.edges[i].u && c == make_candidate(
            cfg,
            l,
            g.edges[i],
        ) && derived_label(g, cfg, seeds, l, (f1 - 1) as nat));
    }
    lemma_state_derived_mono(g, cfg, seeds, s, fuel, f1);
    let r = relax_one(cfg, l, g.edges[i], s);
    if e.v < s.bags.len() && !bag_blocks(s.bags[e.v as int], c) {
        assert forall|v: int, j: int|
            0 <= v < r.bags.len() && 0 <= j < r.bags[v].len() implies derived_label(
            g,
            cfg,
            seeds,
            #[trigger] r.bags[v][j],
            f1,
        ) by {
            if v == e.v as int {
                let b = s.bags[v];
                let p = crate::label::prune_dominated(b, c);
                crate::label::lemma_prune_membership(b, c);
                if j < p.len() {
                    let k = choose|k: int| 0 <= k < b.len() && b[k] == p[j];
                    assert(r.bags[v][j] == b[k]);
                } else {
                    assert(r.bags[v][j] == c);
                }
            } else {
                assert(r.bags[v][j] == s.bags[v][j]);
            }
        }
        assert forall|j: int| 0 <= j < r.queue.len() implies derived_label(
            g,
            cfg,
            seeds,
            #[trigger] r.queue[j],
            f1,
        ) by {
            if j < s.queue.len() {
                assert(r.queue[j] == s.queue[j]);
            } else {
                assert(r.queue[j] == c);
            }
        }
    }
}

/// Relaxing the remaining edges adds only derived labels.
proof fn lemma_relax_from_derived(
    g: GraphV,
    cfg: SearchConfig,
    seeds: Seq<LabelV>,
    l: LabelV,
    s: StateV,
    i: int,
    fuel: nat,
)
    requires
        0 <= i <= g.edges.len(),
        derived_label(g, cfg, seeds, l, fuel),
        state_derived_upto(g, cfg, seeds, s, fuel),
    ensures
        state_derived_upto(
            g,
            cfg,
            seeds,
            relax_edges_from(g, cfg, l, s, i),
            (fuel + g.edges.len() - i) as nat,
        ),
    decreases g.edges.len() - i,
{
    if i >= g.edges.len() {
    } else {
        let s2 = if g.edges[i].u == l.node_id {
            relax_one(cfg, l, g.edges[i], s)
        } else {
            s
        };
        let f2 = (fuel + 1) as nat;
        if g.edges[i].u == l.node_id {
            lemma_relax_one_derived(g, cfg, seeds, l, i, s, fuel);
        } else {
            lemma_state_derived_mono(g, cfg, seeds, s, fuel, f2);
        }
        lemma_derived_mono(g, cfg, seeds, l, fuel, f2);
        lemma_relax_from_derived(g, cfg, seeds, l, s2, i + 1, f2);
    }
}

/// One step adds only derived labels.
proof fn lemma_step_derived(g: GraphV, cfg: SearchConfig, seeds: Seq<LabelV>, s: StateV, fuel: nat)
    requires
        state_derived_upto(g, cfg, seeds, s, fuel),
    ensures
        state_derived_upto(g, cfg, seeds, step(g, cfg, s), (fuel + g.edges.len()) as nat),
{
    if s.queue.len() == 0 {
        lemma_state_derived_mono(g, cfg, seeds, s, fuel, (fuel + g.edges.len()) as nat);
    } else {
        let l = s.queue[0];
        let s1 = StateV { bags: s.bags, queue: s.queue.drop_first() };
        assert(derived_label(g, cfg, seeds, l, fuel));
        assert forall|j: int| 0 <= j < s1.queue.len() implies derived_label(
            g,
            cfg,
            seeds,
            #[trigger] s1.queue[j],
            fuel,
        ) by {
            let x = s.queue[j + 1];
            assert(s1.queue[j] == x);
        }
        lemma_relax_from_derived(g, cfg, seeds, l, s1, 0, fuel);
    }
}

/// Soundness of the search: however many steps it runs, every label it
/// holds is derived from a seed by walking real edges of the graph.  With
/// no pricing rule, every reported cost vector is therefore the saturating
/// sum of an actual path's edge weights — each single-objective projection
/// of a bag is bounded below by that objective's shortest-path distance.
pub proof fn lemma_iterate_derived(
    g: GraphV,
    cfg: SearchConfig,
    seeds: Seq<LabelV>,
    s: StateV,
    n: nat,
    fuel: nat,
)
    requires
        state_derived_upto(g, cfg, seeds, s, fuel),
    ensures
        state_derived_upto(
            g,
            cfg,
            seeds,
            iterate(g, cfg, s, n),
            (fuel + n * g.edges.len()) as nat,
        ),
    decreases n,
{
    if n == 0 {
        assert(n * g.edges.len() == 0) by (nonlinear_arith)
            requires
                n == 0,
        ;
    } else {
        lemma_iterate_derived(g, cfg, seeds, s, (n - 1) as nat, fuel);
        let prev = iterate(g, cfg, s, (n - 1) as nat);
        lemma_step_derived(g, cfg, seeds, prev, (fuel + (n - 1) * g.edges.len()) as nat);
        assert((n - 1) * g.edges.len() + g.edges.len() == n * g.edges.len()) by (nonlinear_arith)
            requires
                n >= 1,
        ;
    }
}

/// The seeded state holds only seed labels: a walk of length zero.
pub proof fn lemma_seed_state_derived(g: GraphV, cfg: SearchConfig, bags: Seq<Seq<LabelV>>)
    ensures
        state_derived_upto(
            g,
            cfg,
            flatten_bags(bags),
            StateV { bags, queue: flatten_bags(bags) },
            0,
        ),
{
    let seeds = flatten_bags(bags);
    let st = StateV { bags, queue: seeds };
    lemma_flatten_contains(bags);
    assert forall|v: int, j: int|
        0 <= v < st.bags.len() && 0 <= j < st.bags[v].len() implies derived_label(
        g,
        cfg,
        seeds,
        #[trigger] st.bags[v][j],
        0,
    ) by {
        assert(st.bags[v][j] == bags[v][j]);
        assert(seeds.contains(bags[v][j]));
    }
    assert forall|j: int| 0 <= j < st.queue.len() implies derived_label(
        g,
        cfg,
        seeds,
        #[trigger] st.queue[j],
        0,
    ) by {
        assert(st.queue[j] == seeds[j]);
        assert(seeds.contains(seeds[j]));
    }
}

/// Every bag label appears in the flattened worklist.
proof fn lemma_flatten_contains(bags: Seq<Seq<LabelV>>)
    ensures
        forall|v: int, j: int|
            0 <= v < bags.len() && 0 <= j < bags[v].len() ==> flatten_bags(bags).contains(
                #[trigger] bags[v][j],
            ),
    decreases bags.len(),
{
    if bags.len() > 0 {
        let front = bags.drop_last();
        lemma_flatten_contains(front);
        let f = flatten_bags(bags);
        let f0 = flatten_bags(front);
        assert forall|v: int, j: int|
            0 <= v < bags.len() && 0 <= j < bags[v].len() implies f.contains(
            #[trigger] bags[v][j],
        ) by {
            if v < bags.len() - 1 {
                assert(front[v] == bags[v]);
                assert(f0.contains(bags[v][j]));
                let k = choose|k: int| 0 <= k < f0.len() && f0[k] == bags[v][j];
                assert(f[k] == bags[v][j]);
            } else {
                assert(bags.last() == bags[v]);
                assert(f[f0.len() + j] == bags[v][j]);
            }
        }
    }
}

/// Once the worklist is empty, further steps change nothing.
pub proof fn lemma_iterate_stable(g: GraphV, cfg: SearchConfig, s: StateV, n1: nat, n2: nat)
    requires
        n1 <= n2,
        iterate(g, cfg, s, n1).queue.len() == 0,
    ensures
        iterate(g, cfg, s, n2) == iterate(g, cfg, s, n1),
    decreases n2 - n1,
{
    if n2 > n1 {
        lemma_iterate_stable(g, cfg, s, n1, (n2 - 1) as nat);
    }
}

/// The search is deterministic: however many steps two runs over the same
/// graph, options and seed take to converge, the converged states are one
/// and the same — bags and all.
pub proof fn lemma_convergence_deterministic(
    g: GraphV,
    cfg: SearchConfig,
    s: StateV,
    n1: nat,
    n2: nat,
)
    requires
        iterate(g, cfg, s, n1).queue.len() == 0,
        iterate(g, cfg, s, n2).queue.len() == 0,
    ensures
        iterate(g, cfg, s, n1) == iterate(g, cfg, s, n2),
{
    if n1 <= n2 {
        lemma_iterate_stable(g, cfg, s, n1, n2);
    } else {
        lemma_iterate_stable(g, cfg, s, n2, n1);
    }
}

} // verus!
