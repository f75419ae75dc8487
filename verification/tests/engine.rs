use mlc_core::errors::MlcError;
use mlc_core::graph_cache::{parse_graph, GraphCache, RawEdge};
use mlc_core::label::{Bag, Bags, Label};
use mlc_core::mlc::{run_mlc, run_mlc_with_bags, run_mlc_with_node_and_time, MLC};
use std::sync::Arc;

fn edge(u: usize, v: usize, weights: &str) -> RawEdge {
    RawEdge { u, v, weights: weights.to_string(), hidden_weights: None }
}

fn edge_with_hidden(u: usize, v: usize, weights: &str, hidden: &str) -> RawEdge {
    RawEdge { u, v, weights: weights.to_string(), hidden_weights: Some(hidden.to_string()) }
}

/// A three-node diamond with two incomparable routes into node 1.
fn diamond_cache() -> GraphCache {
    let mut cache = GraphCache::new();
    cache
        .set_graph(&vec![edge(0, 1, "[1,10]"), edge(0, 2, "[5,1]"), edge(2, 1, "[1,1]")])
        .unwrap();
    cache
}

fn values_of(bag: &Bag) -> Vec<Vec<u64>> {
    bag.labels.iter().map(|l| l.values.clone()).collect()
}

#[test]
fn run_keeps_both_incomparable_routes() {
    let cache = diamond_cache();
    let bags = run_mlc(&cache, 0).unwrap();
    assert_eq!(bags.bags.len(), 3);
    // the seed label stays at the start node
    assert_eq!(values_of(&bags.bags[0]), vec![vec![0, 0]]);
    // node 2 is reached one way
    assert_eq!(values_of(&bags.bags[2]), vec![vec![5, 1]]);
    // node 1 keeps both Pareto-optimal routes
    assert_eq!(values_of(&bags.bags[1]), vec![vec![1, 10], vec![6, 2]]);
    // paths are tracked by default
    assert_eq!(bags.bags[1].labels[0].path, vec![0, 1]);
    assert_eq!(bags.bags[1].labels[1].path, vec![0, 2, 1]);
}

#[test]
fn dominated_routes_are_pruned() {
    let mut cache = GraphCache::new();
    // the indirect route into node 2 costs [2,2]; the direct one [5,5] is dominated
    cache
        .set_graph(&vec![edge(0, 1, "[1,1]"), edge(1, 2, "[1,1]"), edge(0, 2, "[5,5]")])
        .unwrap();
    let bags = run_mlc(&cache, 0).unwrap();
    assert_eq!(values_of(&bags.bags[2]), vec![vec![2, 2]]);
}

#[test]
fn single_objective_minimum_matches_shortest_distances() {
    let cache = diamond_cache();
    let bags = run_mlc(&cache, 0).unwrap();
    // shortest distances from node 0, computed by hand on each objective:
    // objective 0: d(0)=0, d(1)=1 (direct), d(2)=5
    // objective 1: d(0)=0, d(1)=2 (via 2), d(2)=1
    let expected = [[0u64, 0u64], [1, 2], [5, 1]];
    for node in 0..3 {
        for obj in 0..2 {
            let min = bags.bags[node].labels.iter().map(|l| l.values[obj]).min().unwrap();
            assert_eq!(min, expected[node][obj], "node {} objective {}", node, obj);
        }
    }
}

#[test]
fn runs_are_deterministic() {
    let cache = diamond_cache();
    let a = run_mlc(&cache, 0).unwrap();
    let b = run_mlc(&cache, 0).unwrap();
    assert_eq!(a.bags.len(), b.bags.len());
    for v in 0..a.bags.len() {
        let pa: Vec<(Vec<u64>, Vec<u64>)> = a.bags[v]
            .labels
            .iter()
            .map(|l| (l.values.clone(), l.hidden_values.clone()))
            .collect();
        let pb: Vec<(Vec<u64>, Vec<u64>)> = b.bags[v]
            .labels
            .iter()
            .map(|l| (l.values.clone(), l.hidden_values.clone()))
            .collect();
        assert_eq!(pa, pb);
    }
}

#[test]
fn no_bag_holds_a_dominated_label() {
    let cache = diamond_cache();
    let bags = run_mlc(&cache, 0).unwrap();
    for bag in &bags.bags {
        for a in &bag.labels {
            for b in &bag.labels {
                if !std::ptr::eq(a, b) {
                    assert!(!a.dominates(b), "{:?} dominates {:?}", a.values, b.values);
                }
            }
        }
    }
}

#[test]
fn unreachable_nodes_keep_empty_bags() {
    let mut cache = GraphCache::new();
    cache.set_graph(&vec![edge(0, 1, "[1]"), edge(2, 1, "[1]")]).unwrap();
    let bags = run_mlc(&cache, 0).unwrap();
    assert!(bags.bags[2].labels.is_empty());
    assert_eq!(values_of(&bags.bags[1]), vec![vec![1]]);
}

#[test]
fn engine_error_cases() {
    // no cached graph
    let cache = GraphCache::new();
    assert!(matches!(run_mlc(&cache, 0), Err(MlcError::GraphNotSet)));

    // a graph with zero nodes
    let mut cache = GraphCache::new();
    cache.set_graph(&vec![]).unwrap();
    assert!(matches!(run_mlc(&cache, 0), Err(MlcError::EmptyGraph)));

    // a start node beyond the node count
    let cache = diamond_cache();
    assert!(matches!(run_mlc(&cache, 9), Err(MlcError::NodeOutOfRange)));

    // an unknown rule name
    assert!(matches!(
        run_mlc_with_node_and_time(&cache, 0, 0, None, Some("teleport"), None),
        Err(MlcError::UnknownUpdateRule)
    ));

    // a run before any seeding call
    let g = parse_graph(&vec![edge(0, 1, "[1]")]).unwrap();
    let engine = MLC::new(Arc::new(g)).unwrap();
    assert!(matches!(engine.run(), Err(MlcError::NoSeed)));
}

#[test]
fn disabled_paths_stay_empty() {
    let cache = diamond_cache();
    let bags = run_mlc_with_node_and_time(&cache, 0, 0, Some(true), None, None).unwrap();
    for bag in &bags.bags {
        for l in &bag.labels {
            assert!(l.path.is_empty());
        }
    }
    assert_eq!(values_of(&bags.bags[1]), vec![vec![1, 10], vec![6, 2]]);
}

#[test]
fn limited_runs_agree_on_small_graphs() {
    let cache = diamond_cache();
    let unlimited = run_mlc_with_node_and_time(&cache, 0, 0, None, None, None).unwrap();
    let limited = run_mlc_with_node_and_time(&cache, 0, 0, None, None, Some(true)).unwrap();
    for v in 0..3 {
        assert_eq!(values_of(&unlimited.bags[v]), values_of(&limited.bags[v]));
    }
}

#[test]
fn tariff_rule_prices_by_elapsed_time() {
    let mut cache = GraphCache::new();
    // a 30-minute ride: time objective 60, price objective recomputed by the rule
    cache
        .set_graph(&vec![edge_with_hidden(0, 1, "[60,0]", "[1800]")])
        .unwrap();
    // zero baseline: the ride crosses one 30-minute interval
    let bags = run_mlc_with_node_and_time(&cache, 0, 0, None, Some("next_bike_tariff"), None)
        .unwrap();
    assert_eq!(values_of(&bags.bags[1]), vec![vec![60, 100]]);
    assert_eq!(bags.bags[1].labels[0].hidden_values, vec![1800]);

    // a rental already 25 minutes in crosses from the first into the second interval
    let bags = run_mlc_with_node_and_time(&cache, 0, 1500, None, Some("next_bike_tariff"), None)
        .unwrap();
    assert_eq!(values_of(&bags.bags[1]), vec![vec![60, 100]]);
    assert_eq!(bags.bags[1].labels[0].hidden_values, vec![3300]);

    // without the free first interval, the ride covers two 15-minute
    // intervals and starting the rental charges one more
    let bags = run_mlc_with_node_and_time(&cache, 0, 0, None, Some("next_bike_no_tariff"), None)
        .unwrap();
    assert_eq!(values_of(&bags.bags[1]), vec![vec![60, 300]]);
}

#[test]
fn seeding_from_bags_prunes_and_resumes() {
    let mut cache = GraphCache::new();
    cache.set_graph(&vec![edge(0, 1, "[1,1]")]).unwrap();
    // two seed labels at node 0, one dominating the other
    let seed = Bags {
        bags: vec![
            Bag {
                labels: vec![
                    Label { node_id: 0, values: vec![0, 5], hidden_values: vec![0], path: vec![] },
                    Label { node_id: 0, values: vec![0, 3], hidden_values: vec![0], path: vec![] },
                ],
            },
            Bag { labels: vec![] },
        ],
    };
    let bags = run_mlc_with_bags(&cache, seed, None, None, None).unwrap();
    // the dominated seed label is pruned on the way in
    assert_eq!(values_of(&bags.bags[0]), vec![vec![0, 3]]);
    assert_eq!(values_of(&bags.bags[1]), vec![vec![1, 4]]);
}

#[test]
fn personal_car_rule_through_the_registry() {
    let mut cache = GraphCache::new();
    // a three-minute drive
    cache
        .set_graph(&vec![edge_with_hidden(0, 1, "[180,0]", "[180]")])
        .unwrap();
    let bags = run_mlc_with_node_and_time(&cache, 0, 0, None, Some("personal_car"), None).unwrap();
    // three one-minute intervals plus the starting charge, at 19 cents each
    assert_eq!(values_of(&bags.bags[1]), vec![vec![180, 4 * 19]]);
}
