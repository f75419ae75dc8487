use crate::errors::MlcError;
use crate::label::copy_vec_u64;
use crate::parse::{parse_weights, parse_weights_spec};
use std::sync::Arc;
use vstd::prelude::*;

verus! {

/// One edge as a caller describes it: endpoints and textual weight lists.
/// The hidden list may be omitted; such an edge contributes no auxiliary
/// state.
pub struct RawEdge {
    pub u: usize,
    pub v: usize,
    pub weights: String,
    pub hidden_weights: Option<String>,
}

/// The mathematical view of a [`RawEdge`].
#[verifier::ext_equal]
pub ghost struct RawEdgeV {
    pub u: usize,
    pub v: usize,
    pub weights: Seq<char>,
    pub hidden_weights: Option<Seq<char>>,
}

impl View for RawEdge {
    type V = RawEdgeV;

    open spec fn view(&self) -> RawEdgeV {
        RawEdgeV {
            u: self.u,
            v: self.v,
            weights: self.weights@,
            hidden_weights: match self.hidden_weights {
                Some(h) => Some(h@),
                None => None,
            },
        }
    }
}

/// One parsed directed edge of the store.
pub struct Edge {
    pub u: usize,
    pub v: usize,
    pub weights: Vec<u64>,
    pub hidden_weights: Vec<u64>,
}

/// The mathematical view of an [`Edge`].
#[verifier::ext_equal]
pub ghost struct EdgeV {
    pub u: usize,
    pub v: usize,
    pub weights: Seq<u64>,
    pub hidden_weights: Seq<u64>,
}

impl View for Edge {
    type V = EdgeV;

    open spec fn view(&self) -> EdgeV {
        EdgeV { u: self.u, v: self.v, weights: self.weights@, hidden_weights: self.hidden_weights@ }
    }
}

/// The immutable graph store: nodes are the dense ids `0..node_count`; the
/// edges form a directed multigraph.  Objective-weight vectors all have
/// dimension `dim_values`, hidden-weight vectors all have dimension
/// `dim_hidden`.  The store is never mutated after construction.
pub struct Graph {
    pub node_count: usize,
    pub dim_values: usize,
    pub dim_hidden: usize,
    pub edges: Vec<Edge>,
}

/// The mathematical view of a [`Graph`].
#[verifier::ext_equal]
pub ghost struct GraphV {
    pub node_count: usize,
    pub dim_values: usize,
    pub dim_hidden: usize,
    pub edges: Seq<EdgeV>,
}

impl View for Graph {
    type V = GraphV;

    open spec fn view(&self) -> GraphV {
        GraphV {
            node_count: self.node_count,
            dim_values: self.dim_values,
            dim_hidden: self.dim_hidden,
            edges: self.edges@.map_values(|e: Edge| e@),
        }
    }
}

/// Well-formedness of a graph store: endpoints in range and every weight
/// vector of its declared dimension; every label carries at least the
/// elapsed-seconds slot, so the hidden dimension is at least one.
pub open spec fn graph_wf(g: GraphV) -> bool {
    &&& g.dim_hidden >= 1
    &&& forall|i: int|
        0 <= i < g.edges.len() ==> {
            &&& (#[trigger] g.edges[i]).u < g.node_count
            &&& g.edges[i].v < g.node_count
            &&& g.edges[i].weights.len() == g.dim_values
            &&& g.edges[i].hidden_weights.len() == g.dim_hidden
        }
}

/// The all-zero hidden vector for edges that declare none.
pub open spec fn zero_weights(n: int) -> Seq<u64> {
    Seq::new(n as nat, |i: int| 0u64)
}

/// What a weight field denotes, or the empty list where it is malformed.
pub open spec fn parsed_or_empty(s: Seq<char>) -> Seq<u64> {
    match parse_weights_spec(s) {
        Some(w) => w,
        None => Seq::empty(),
    }
}

/// Whether both weight fields of a raw edge parse.
pub open spec fn edge_parses(e: RawEdgeV) -> bool {
    &&& parse_weights_spec(e.weights) is Some
    &&& match e.hidden_weights {
        Some(h) => parse_weights_spec(h) is Some,
        None => true,
    }
}

/// The parsed objective weights of a raw edge.
pub open spec fn edge_weights(e: RawEdgeV) -> Seq<u64> {
    parsed_or_empty(e.weights)
}

/// The parsed hidden weights of a raw edge, where it declares any.
pub open spec fn edge_hidden(e: RawEdgeV) -> Option<Seq<u64>> {
    match e.hidden_weights {
        Some(h) => Some(parsed_or_empty(h)),
        None => None,
    }
}

/// Every edge of the description parses.
pub open spec fn all_edges_parse(s: Seq<RawEdgeV>) -> bool {
    forall|i: int| 0 <= i < s.len() ==> edge_parses(#[trigger] s[i])
}

/// All objective-weight vectors share one dimension.
pub open spec fn weights_dims_equal(s: Seq<RawEdgeV>) -> bool {
    forall|i: int|
        0 <= i < s.len() ==> edge_weights(#[trigger] s[i]).len() == edge_weights(s[0]).len()
}

/// The dimension of the first declared hidden vector, if any edge declares
/// one.
pub open spec fn first_hidden_dim(s: Seq<RawEdgeV>) -> Option<int>
    decreases s.len(),
{
    if s.len() == 0 {
        None
    } else {
        match edge_hidden(s[0]) {
            Some(h) => Some(h.len() as int),
            None => first_hidden_dim(s.drop_first()),
        }
    }
}

/// All declared hidden vectors share one dimension.
pub open spec fn hidden_dims_equal(s: Seq<RawEdgeV>) -> bool {
    forall|i: int|
        0 <= i < s.len() ==> match edge_hidden(#[trigger] s[i]) {
            Some(h) => first_hidden_dim(s) == Some(h.len() as int),
            None => true,
        }
}

/// The hidden dimension of the store built from a description: the shared
/// dimension of the declared hidden vectors, or one (the elapsed-seconds
/// slot alone) when no edge declares any.
pub open spec fn spec_dim_hidden(s: Seq<RawEdgeV>) -> int {
    match first_hidden_dim(s) {
        Some(d) => d,
        None => 1,
    }
}

/// The objective dimension of the store built from a description.
pub open spec fn spec_dim_values(s: Seq<RawEdgeV>) -> int {
    if s.len() == 0 {
        0
    } else {
        edge_weights(s[0]).len() as int
    }
}

/// One more than the largest node id mentioned by the description.
pub open spec fn spec_node_count(s: Seq<RawEdgeV>) -> int
    decreases s.len(),
{
    if s.len() == 0 {
        0
    } else {
        let r = spec_node_count(s.drop_last());
        let lu = s.last().u + 1;
        let lv = s.last().v + 1;
        let m = if lu >= lv {
            lu
        } else {
            lv
        };
        if r >= m {
            r
        } else {
            m
        }
    }
}

/// A description is accepted when every field parses and the dimensions
/// agree.
pub open spec fn edges_ok(s: Seq<RawEdgeV>) -> bool {
    &&& all_edges_parse(s)
    &&& weights_dims_equal(s)
    &&& hidden_dims_equal(s)
}

/// The graph store a description denotes, or nothing where the description
/// is malformed.  Edges keep their order; an edge without a hidden vector
/// receives the all-zero one.
pub open spec fn build_graph_spec(s: Seq<RawEdgeV>) -> Option<GraphV> {
    if edges_ok(s) {
        Some(
            GraphV {
                node_count: spec_node_count(s) as usize,
                dim_values: spec_dim_values(s) as usize,
                dim_hidden: spec_dim_hidden(s) as usize,
                edges: Seq::new(
                    s.len(),
                    |i: int|
                        EdgeV {
                            u: s[i].u,
                            v: s[i].v,
                            weights: edge_weights(s[i]),
                            hidden_weights: match edge_hidden(s[i]) {
                                Some(h) => h,
                                None => zero_weights(spec_dim_hidden(s)),
                            },
                        },
                ),
            },
        )
    } else {
        None
    }
}

/// The views of a slice of raw edges.
pub open spec fn raw_views(s: Seq<RawEdge>) -> Seq<RawEdgeV> {
    s.map_values(|e: RawEdge| e@)
}

/// Appending an edge does not change which hidden dimension is found first,
/// unless none was found before.
proof fn lemma_first_hidden_push(s: Seq<RawEdgeV>, x: RawEdgeV)
    ensures
        first_hidden_dim(s) is Some ==> first_hidden_dim(s.push(x)) == first_hidden_dim(s),
        first_hidden_dim(s) is None ==> first_hidden_dim(s.push(x)) == (match edge_hidden(x) {
            Some(h) => Some(h.len() as int),
            None => None::<int>,
        }),
    decreases s.len(),
{
    if s.len() == 0 {
        assert(s.push(x)[0] == x);
        assert(s.push(x).drop_first() =~= Seq::<RawEdgeV>::empty());
        match edge_hidden(x) {
            Some(h) => {
                assert(first_hidden_dim(s.push(x)) == Some(h.len() as int));
            },
            None => {
                reveal_with_fuel(first_hidden_dim, 2);
                assert(first_hidden_dim(s.push(x)) is None);
            },
        }
    } else {
        assert(s.push(x)[0] == s[0]);
        assert(s.push(x).drop_first() =~= s.drop_first().push(x));
        lemma_first_hidden_push(s.drop_first(), x);
        match edge_hidden(s[0]) {
            Some(h) => {
                assert(first_hidden_dim(s) == Some(h.len() as int));
                assert(first_hidden_dim(s.push(x)) == Some(h.len() as int));
            },
            None => {
                assert(first_hidden_dim(s) == first_hidden_dim(s.drop_first()));
                assert(first_hidden_dim(s.push(x)) == first_hidden_dim(
                    s.drop_first().push(x),
                ));
            },
        }
    }
}

/// Once some prefix of a description declares a hidden vector, the whole
/// description's first hidden dimension is the prefix's.
proof fn lemma_first_hidden_prefix(s: Seq<RawEdgeV>, i: int)
    requires
        0 <= i <= s.len(),
        first_hidden_dim(s.subrange(0, i)) is Some,
    ensures
        first_hidden_dim(s) == first_hidden_dim(s.subrange(0, i)),
    decreases i,
{
    let p = s.subrange(0, i);
    assert(p.len() == i);
    assert(i > 0);
    assert(p[0] == s[0]);
    match edge_hidden(s[0]) {
        Some(h) => {},
        None => {
            assert(p.drop_first() =~= s.drop_first().subrange(0, i - 1));
            lemma_first_hidden_prefix(s.drop_first(), i - 1);
        },
    }
}

/// The node count of a well-formed description bounds every endpoint.
proof fn lemma_node_count_bounds(s: Seq<RawEdgeV>)
    ensures
        forall|i: int|
            0 <= i < s.len() ==> (#[trigger] s[i]).u + 1 <= spec_node_count(s) && s[i].v + 1
                <= spec_node_count(s),
    decreases s.len(),
{
    if s.len() > 0 {
        lemma_node_count_bounds(s.drop_last());
        assert forall|i: int|
            0 <= i < s.len() implies (#[trigger] s[i]).u + 1 <= spec_node_count(s) && s[i].v + 1
            <= spec_node_count(s) by {
            if i < s.len() - 1 {
                assert(s.drop_last()[i] == s[i]);
            } else {
                assert(s[i] == s.last());
            }
        }
    }
}

/// Builds the immutable graph store from an edge description.  Fails with
/// `MalformedWeight` exactly when some weight field does not parse or the
/// parsed dimensions disagree.
pub fn parse_graph(raw_edges: &Vec<RawEdge>) -> (r: Result<Graph, MlcError>)
    requires
        forall|i: int|
            0 <= i < raw_edges@.len() ==> (#[trigger] raw_edges@[i]).u < usize::MAX
                && raw_edges@[i].v < usize::MAX,
    ensures
        r matches Ok(g) ==> build_graph_spec(raw_views(raw_edges@)) == Some(g@) && graph_wf(g@),
        r matches Err(e) ==> e == MlcError::MalformedWeight && build_graph_spec(
            raw_views(raw_edges@),
        ) is None,
{
    let ghost rv = raw_views(raw_edges@);
    let n = raw_edges.len();
    let mut ws: Vec<Vec<u64>> = Vec::new();
    let mut hs: Vec<Option<Vec<u64>>> = Vec::new();
    let mut node_count: usize = 0;
    let mut m_found: Option<usize> = None;
    let mut i: usize = 0;
    while i < n
        invariant
            0 <= i <= n,
            n == raw_edges@.len(),
            rv == raw_views(raw_edges@),
            rv.len() == n,
            forall|j: int| 0 <= j < n ==> rv[j] == raw_edges@[j]@,
            forall|j: int|
                0 <= j < n ==> (#[trigger] raw_edges@[j]).u < usize::MAX && raw_edges@[j].v
                    < usize::MAX,
            ws@.len() == i,
            hs@.len() == i,
            forall|j: int| 0 <= j < i ==> edge_parses(#[trigger] rv[j]),
            forall|j: int| 0 <= j < i ==> (#[trigger] ws@[j])@ == edge_weights(rv[j]),
            forall|j: int|
                0 <= j < i ==> match edge_hidden(#[trigger] rv[j]) {
                    Some(h) => hs@[j] matches Some(hv) && hv@ == h,
                    None => hs@[j] is None,
                },
            forall|j: int|
                0 <= j < i ==> edge_weights(#[trigger] rv[j]).len() == edge_weights(rv[0]).len(),
            node_count == spec_node_count(rv.subrange(0, i as int)),
            match m_found {
                Some(d) => first_hidden_dim(rv.subrange(0, i as int)) == Some(d as int) && d >= 1,
                None => first_hidden_dim(rv.subrange(0, i as int)) is None,
            },
            forall|j: int|
                0 <= j < i ==> match edge_hidden(#[trigger] rv[j]) {
                    Some(h) => first_hidden_dim(rv.subrange(0, i as int)) == Some(h.len() as int),
                    None => true,
                },
        decreases n - i,
    {
        proof {
            assert(rv[i as int] == raw_edges@[i as int]@);
        }
        let w = match parse_weights(&raw_edges[i].weights) {
            Ok(w) => w,
            Err(e) => {
                return Err(e);
            },
        };
        if i > 0 {
            if w.len() != ws[0].len() {
                return Err(MlcError::MalformedWeight);
            }
        }
        let ghost m_before = m_found;
        let h: Option<Vec<u64>> = match &raw_edges[i].hidden_weights {
            Some(hraw) => {
                match parse_weights(hraw) {
                    Ok(hv) => {
                        match m_found {
                            Some(d) => {
                                if hv.len() != d {
                                    proof {
                                        lemma_first_hidden_prefix(rv, i as int);
                                        assert(edge_hidden(rv[i as int]) == Some(hv@));
                                        assert(!hidden_dims_equal(rv));
                                    }
                                    return Err(MlcError::MalformedWeight);
                                }
                            },
                            None => {
                                proof {
                                    crate::parse::lemma_parse_weights_nonempty(hraw@);
                                }
                                m_found = Some(hv.len());
                            },
                        }
                        Some(hv)
                    },
                    Err(e) => {
                        proof {
                            assert(!edge_parses(rv[i as int]));
                        }
                        return Err(e);
                    },
                }
            },
            None => None,
        };
        let u1 = raw_edges[i].u + 1;
        let v1 = raw_edges[i].v + 1;
        let cand = if u1 >= v1 {
            u1
        } else {
            v1
        };
        if cand > node_count {
            node_count = cand;
        }
        ws.push(w);
        hs.push(h);
        proof {
            assert(rv.subrange(0, i + 1 as int).drop_last() =~= rv.subrange(0, i as int));
            assert(rv.subrange(0, i + 1 as int).last() == rv[i as int]);
            assert(rv.subrange(0, i as int).push(rv[i as int]) =~= rv.subrange(0, i + 1 as int));
            lemma_first_hidden_push(rv.subrange(0, i as int), rv[i as int]);
            assert forall|j: int|
                0 <= j < i + 1 implies match edge_hidden(#[trigger] rv[j]) {
                Some(h2) => first_hidden_dim(rv.subrange(0, i + 1 as int)) == Some(h2.len() as int),
                None => true,
            } by {
                if j < i {
                    if edge_hidden(rv[j]) is Some {
                        assert(first_hidden_dim(rv.subrange(0, i as int)) is Some);
                    }
                } else {
                    assert(rv[j] == rv[i as int]);
                }
            }
        }
        i += 1;
    }
    proof {
        assert(rv.subrange(0, n as int) =~= rv);
        assert(all_edges_parse(rv));
        assert(weights_dims_equal(rv));
        assert(hidden_dims_equal(rv));
    }
    let dim_values: usize = if n == 0 {
        0
    } else {
        ws[0].len()
    };
    let dim_hidden: usize = match m_found {
        Some(d) => d,
        None => 1,
    };
    let mut edges: Vec<Edge> = Vec::new();
    let mut i: usize = 0;
    while i < n
        invariant
            0 <= i <= n,
            n == rv.len(),
            n == raw_edges@.len(),
            rv == raw_views(raw_edges@),
            forall|j: int| 0 <= j < n ==> rv[j] == raw_edges@[j]@,
            ws@.len() == n,
            hs@.len() == n,
            edges_ok(rv),
            forall|j: int| 0 <= j < n ==> (#[trigger] ws@[j])@ == edge_weights(rv[j]),
            forall|j: int|
                0 <= j < n ==> match edge_hidden(#[trigger] rv[j]) {
                    Some(h) => hs@[j] matches Some(hv) && hv@ == h,
                    None => hs@[j] is None,
                },
            dim_hidden as int == spec_dim_hidden(rv),
            edges@.len() == i,
            forall|j: int|
                0 <= j < i ==> (#[trigger] edges@[j])@ == (match build_graph_spec(rv) {
                    Some(g) => g.edges[j],
                    None => arbitrary(),
                }),
        decreases n - i,
    {
        let weights = copy_vec_u64(&ws[i]);
        let hidden_weights = match &hs[i] {
            Some(hv) => copy_vec_u64(hv),
            None => make_zero_vec(dim_hidden),
        };
        let e = Edge { u: raw_edges[i].u, v: raw_edges[i].v, weights, hidden_weights };
        proof {
            assert(rv[i as int] == raw_edges@[i as int]@);
            assert(e@ =~= (match build_graph_spec(rv) {
                Some(g) => g.edges[i as int],
                None => arbitrary(),
            }));
        }
        edges.push(e);
        i += 1;
    }
    let g = Graph { node_count, dim_values, dim_hidden, edges };
    proof {
        let gv = match build_graph_spec(rv) {
            Some(gv) => gv,
            None => arbitrary(),
        };
        assert(g@.edges =~= gv.edges);
        assert(g@ =~= gv);
        lemma_node_count_bounds(rv);
        assert forall|j: int| 0 <= j < g@.edges.len() implies {
            &&& (#[trigger] g@.edges[j]).u < g@.node_count
            &&& g@.edges[j].v < g@.node_count
            &&& g@.edges[j].weights.len() == g@.dim_values
            &&& g@.edges[j].hidden_weights.len() == g@.dim_hidden
        } by {
            assert(g@.edges[j] == gv.edges[j]);
            assert(edge_parses(rv[j]));
            assert(edge_weights(rv[j]).len() == edge_weights(rv[0]).len());
        }
    }
    Ok(g)
}

/// A vector of `n` zeros.
pub fn make_zero_vec(n: usize) -> (r: Vec<u64>)
    ensures
        r@ == zero_weights(n as int),
{
    let mut r: Vec<u64> = Vec::new();
    let mut i: usize = 0;
    while i < n
        invariant
            0 <= i <= n,
            r@.len() == i,
            forall|j: int| 0 <= j < i ==> r@[j] == 0u64,
        decreases n - i,
    {
        r.push(0);
        i += 1;
    }
    proof {
        assert(r@ =~= zero_weights(n as int));
    }
    r
}

/// The index of the first edge from `u` to `v`, if one exists.
pub open spec fn spec_find_edge(edges: Seq<EdgeV>, u: usize, v: usize) -> Option<int>
    decreases edges.len(),
{
    if edges.len() == 0 {
        None
    } else if edges[0].u == u && edges[0].v == v {
        Some(0)
    } else {
        match spec_find_edge(edges.drop_first(), u, v) {
            Some(i) => Some(i + 1),
            None => None,
        }
    }
}

/// Owns at most one graph store, shared read-only with every engine run, so
/// that construction is paid once and reused by any number of searches.
pub struct GraphCache {
    pub graph: Option<Arc<Graph>>,
}

impl GraphCache {
    /// An empty cache.
    pub fn new() -> (r: GraphCache)
        ensures
            r.graph is None,
    {
        GraphCache { graph: None }
    }

    /// Parses an edge description into a graph store and caches it,
    /// replacing any previously cached store.  Fails with `MalformedWeight`
    /// exactly when the description is malformed; the old store is kept in
    /// that case.
    pub fn set_graph(&mut self, raw_edges: &Vec<RawEdge>) -> (r: Result<(), MlcError>)
        requires
            forall|i: int|
                0 <= i < raw_edges@.len() ==> (#[trigger] raw_edges@[i]).u < usize::MAX
                    && raw_edges@[i].v < usize::MAX,
        ensures
            r matches Ok(()) ==> {
                &&& build_graph_spec(raw_views(raw_edges@)) is Some
                &&& final(self).graph matches Some(g) && Some(g@) == build_graph_spec(
                    raw_views(raw_edges@),
                ) && graph_wf(g@)
            },
            r matches Err(e) ==> {
                &&& e == MlcError::MalformedWeight
                &&& build_graph_spec(raw_views(raw_edges@)) is None
                &&& final(self).graph == old(self).graph
            },
    {
        match parse_graph(raw_edges) {
            Ok(g) => {
                self.graph = Some(Arc::new(g));
                Ok(())
            },
            Err(e) => Err(e),
        }
    }

    /// The node and edge counts of the cached store, for diagnostics.
    pub fn summary(&self) -> (r: Result<(usize, usize), MlcError>)
        ensures
            match self.graph {
                Some(g) => r == Ok::<(usize, usize), MlcError>(
                    (g@.node_count, g@.edges.len() as usize),
                ),
                None => r == Err::<(usize, usize), MlcError>(MlcError::GraphNotSet),
            },
    {
        match &self.graph {
            Some(g) => Ok((g.node_count, g.edges.len())),
            None => Err(MlcError::GraphNotSet),
        }
    }

    /// Succeeds exactly when a store is cached and `node_id` lies below its
    /// node count.
    pub fn validate_node_id(&self, node_id: usize) -> (r: Result<(), MlcError>)
        ensures
            match self.graph {
                Some(g) => r == if node_id < g@.node_count {
                    Ok::<(), MlcError>(())
                } else {
                    Err::<(), MlcError>(MlcError::NodeOutOfRange)
                },
                None => r == Err::<(), MlcError>(MlcError::GraphNotSet),
            },
    {
        match &self.graph {
            Some(g) => {
                if node_id < g.node_count {
                    Ok(())
                } else {
                    Err(MlcError::NodeOutOfRange)
                }
            },
            None => Err(MlcError::GraphNotSet),
        }
    }

    /// The objective weights of the first edge from `start_node_id` to
    /// `end_node_id`; `EdgeNotFound` when there is none, `GraphNotSet` when
    /// no store is cached.
    pub fn get_edge_weights(&self, start_node_id: usize, end_node_id: usize) -> (r: Result<
        Vec<u64>,
        MlcError,
    >)
        ensures
            match self.graph {
                Some(g) => match spec_find_edge(g@.edges, start_node_id, end_node_id) {
                    Some(idx) => r matches Ok(w) && w@ == g@.edges[idx].weights,
                    None => r == Err::<Vec<u64>, MlcError>(MlcError::EdgeNotFound),
                },
                None => r == Err::<Vec<u64>, MlcError>(MlcError::GraphNotSet),
            },
    {
        let g = match &self.graph {
            Some(g) => g,
            None => {
                return Err(MlcError::GraphNotSet);
            },
        };
        let ghost es = g@.edges;
        let n = g.edges.len();
        proof {
            assert(es.skip(0) =~= es);
        }
        let mut i: usize = 0;
        while i < n
            invariant
                0 <= i <= n,
                n == es.len(),
                es == g@.edges,
                self.graph == Some(*g),
                spec_find_edge(es, start_node_id, end_node_id) == match spec_find_edge(
                    es.skip(i as int),
                    start_node_id,
                    end_node_id,
                ) {
                    Some(j) => Some(i + j),
                    None => None::<int>,
                },
            decreases n - i,
        {
            proof {
                assert(es.skip(i as int)[0] == es[i as int]);
                assert(es.skip(i as int).drop_first() =~= es.skip(i + 1 as int));
                assert(es[i as int] == g.edges@[i as int]@);
            }
            if g.edges[i].u == start_node_id && g.edges[i].v == end_node_id {
                proof {
                    assert(spec_find_edge(es.skip(i as int), start_node_id, end_node_id) == Some(
                        0int,
                    ));
                    assert(spec_find_edge(es, start_node_id, end_node_id) == Some(i as int));
                }
                return Ok(copy_vec_u64(&g.edges[i].weights));
            }
            i += 1;
        }
        proof {
            assert(es.skip(n as int) =~= Seq::<EdgeV>::empty());
        }
        Err(MlcError::EdgeNotFound)
    }
}

} // verus!
