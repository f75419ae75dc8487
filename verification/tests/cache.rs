use mlc_core::errors::MlcError;
use mlc_core::graph_cache::{GraphCache, RawEdge};

fn edge(u: usize, v: usize, weights: &str) -> RawEdge {
    RawEdge { u, v, weights: weights.to_string(), hidden_weights: None }
}

fn edge_with_hidden(u: usize, v: usize, weights: &str, hidden: &str) -> RawEdge {
    RawEdge { u, v, weights: weights.to_string(), hidden_weights: Some(hidden.to_string()) }
}

#[test]
fn summary_before_set_graph_fails() {
    let cache = GraphCache::new();
    assert!(matches!(cache.summary(), Err(MlcError::GraphNotSet)));
    assert!(matches!(cache.validate_node_id(0), Err(MlcError::GraphNotSet)));
    assert!(matches!(cache.get_edge_weights(0, 1), Err(MlcError::GraphNotSet)));
}

#[test]
fn cached_edge_weights_come_back() {
    let mut cache = GraphCache::new();
    cache.set_graph(&vec![edge(0, 1, "[5,2]")]).unwrap();
    assert_eq!(cache.get_edge_weights(0, 1).unwrap(), vec![5, 2]);
    // the graph is directed: the reverse edge does not exist
    assert!(matches!(cache.get_edge_weights(1, 0), Err(MlcError::EdgeNotFound)));
    assert!(matches!(cache.summary(), Ok((2, 1))));
}

#[test]
fn node_ids_are_validated_against_the_node_count() {
    let mut cache = GraphCache::new();
    cache.set_graph(&vec![edge(0, 1, "[5,2]")]).unwrap();
    assert!(matches!(cache.validate_node_id(0), Ok(())));
    assert!(matches!(cache.validate_node_id(1), Ok(())));
    assert!(matches!(cache.validate_node_id(5), Err(MlcError::NodeOutOfRange)));
}

#[test]
fn malformed_weights_are_rejected() {
    let mut cache = GraphCache::new();
    // not bracketed
    assert!(matches!(cache.set_graph(&vec![edge(0, 1, "5,2")]), Err(MlcError::MalformedWeight)));
    // not a number
    assert!(matches!(cache.set_graph(&vec![edge(0, 1, "[5,a]")]), Err(MlcError::MalformedWeight)));
    // empty entry
    assert!(matches!(cache.set_graph(&vec![edge(0, 1, "[5,]")]), Err(MlcError::MalformedWeight)));
    // empty list
    assert!(matches!(cache.set_graph(&vec![edge(0, 1, "[]")]), Err(MlcError::MalformedWeight)));
    // too large for u64
    assert!(matches!(
        cache.set_graph(&vec![edge(0, 1, "[99999999999999999999]")]),
        Err(MlcError::MalformedWeight)
    ));
    // a failed set_graph leaves no store behind
    assert!(matches!(cache.summary(), Err(MlcError::GraphNotSet)));
}

#[test]
fn disagreeing_dimensions_are_rejected() {
    let mut cache = GraphCache::new();
    assert!(matches!(
        cache.set_graph(&vec![edge(0, 1, "[5,2]"), edge(1, 2, "[7]")]),
        Err(MlcError::MalformedWeight)
    ));
    assert!(matches!(
        cache.set_graph(&vec![
            edge_with_hidden(0, 1, "[5]", "[60]"),
            edge_with_hidden(1, 2, "[7]", "[60,1]"),
        ]),
        Err(MlcError::MalformedWeight)
    ));
}

#[test]
fn replacing_the_cached_graph_takes_effect() {
    let mut cache = GraphCache::new();
    cache.set_graph(&vec![edge(0, 1, "[5,2]")]).unwrap();
    cache.set_graph(&vec![edge(0, 1, "[9,9]"), edge(1, 3, "[1,1]")]).unwrap();
    assert_eq!(cache.get_edge_weights(0, 1).unwrap(), vec![9, 9]);
    assert!(matches!(cache.summary(), Ok((4, 2))));
}

#[test]
fn parallel_edges_return_the_first_match() {
    let mut cache = GraphCache::new();
    cache.set_graph(&vec![edge(0, 1, "[5,2]"), edge(0, 1, "[3,9]")]).unwrap();
    assert_eq!(cache.get_edge_weights(0, 1).unwrap(), vec![5, 2]);
}

#[test]
fn edges_without_hidden_weights_get_zeros() {
    let mut cache = GraphCache::new();
    cache
        .set_graph(&vec![edge_with_hidden(0, 1, "[5]", "[60,7]"), edge(1, 2, "[3]")])
        .unwrap();
    let g = cache.graph.as_ref().unwrap();
    assert_eq!(g.dim_hidden, 2);
    assert_eq!(g.edges[0].hidden_weights, vec![60, 7]);
    assert_eq!(g.edges[1].hidden_weights, vec![0, 0]);
}

#[test]
fn error_messages_name_the_failure() {
    assert_eq!(MlcError::GraphNotSet.message(), "graph not set");
    assert_eq!(MlcError::MalformedWeight.message(), "malformed weight list");
    assert_eq!(MlcError::NoSeed.message(), "engine was not seeded");
}
