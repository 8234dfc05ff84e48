use std::collections::HashMap;

use qassign::queue::priorityqueue::{Feature, PriorityQueue, PriorityQueueConfig};
use qassign::queue::Queue;

type Getter = fn(&'static str) -> String;

fn text_of(elem: &'static str) -> String {
    elem.to_string()
}

fn initial_of(elem: &'static str) -> String {
    elem.chars().take(1).collect()
}

fn weights(pairs: Vec<(&str, u32)>) -> HashMap<String, u32> {
    pairs
        .into_iter()
        .map(|(key, weight)| (key.to_string(), weight))
        .collect()
}

fn two_features() -> PriorityQueueConfig<&'static str, String, Getter> {
    let mut config = PriorityQueueConfig::new();
    config.add_feature(
        "feature1".to_string(),
        weights(vec![("a", 1), ("b", 2)]),
        text_of as Getter,
    );
    config.add_feature(
        "feature2".to_string(),
        weights(vec![("a", 2), ("b", 1)]),
        text_of as Getter,
    );
    config
}

fn drain<K, G>(queue: &mut PriorityQueue<&'static str, K, G>) -> Vec<&'static str>
where
    K: std::hash::Hash + Eq + std::fmt::Display + std::fmt::Debug + Clone,
    G: Fn(&'static str) -> K + Copy,
{
    let mut order = Vec::new();
    while let Some(elem) = queue.pop() {
        order.push(elem);
    }
    order
}

fn contents(queue: &PriorityQueue<&'static str, String, Getter>, name: &str) -> String {
    queue.feature_queue(name).unwrap().to_string("&str")
}

// After the three additions feature1 holds [a, b, b, b, b] and feature2
// holds [a, a, b, b]. Each removal takes the front of the fuller queue, and
// of feature1 when both are equally full.
#[test]
fn test_priority_queue() {
    let mut config = PriorityQueueConfig::new();
    config.add_feature(
        "feature1".to_string(),
        vec![("a".to_string(), 1), ("b".to_string(), 2)]
            .into_iter()
            .collect(),
        text_of as Getter,
    );
    config.add_feature(
        "feature2".to_string(),
        vec![("a".to_string(), 2), ("b".to_string(), 1)]
            .into_iter()
            .collect(),
        text_of as Getter,
    );
    let mut queue = PriorityQueue::new(config.clone());
    queue.add("a");
    queue.add("b");
    queue.add("b");
    assert_eq!(queue.pop(), Some("a"));
    assert_eq!(queue.pop(), Some("b"));
    assert_eq!(queue.pop(), Some("a"));
    assert_eq!(queue.pop(), Some("b"));
    let mut queue2 = PriorityQueue::new(config.clone());
    queue2.add("a");
    queue2.add("b");
    queue2.add("b");
    queue.dump(&mut queue2);
    assert_eq!(queue2.pop(), Some("a"));
    assert_eq!(queue2.pop(), Some("a"));
    assert_eq!(queue2.pop(), Some("b"));
    assert_eq!(queue2.pop(), Some("a"));
}

#[test]
fn pops_until_empty_in_occupancy_order() {
    let mut queue = PriorityQueue::new(two_features());
    queue.add("a");
    queue.add("b");
    queue.add("b");
    assert_eq!(queue.len(), 9);
    assert_eq!(
        drain(&mut queue),
        vec!["a", "b", "a", "b", "a", "b", "b", "b", "b"]
    );
    assert_eq!(queue.len(), 0);
    assert!(queue.is_empty());
    assert_eq!(queue.pop(), None);
    assert_eq!(queue.pop(), None);
}

#[test]
fn add_stores_one_copy_per_unit_of_weight() {
    let mut queue = PriorityQueue::new(two_features());
    queue.add("a");
    assert_eq!(queue.feature_queue("feature1").unwrap().len(), 1);
    assert_eq!(queue.feature_queue("feature2").unwrap().len(), 2);
    assert_eq!(queue.len(), 3);
    queue.add("b");
    assert_eq!(queue.feature_queue("feature1").unwrap().len(), 3);
    assert_eq!(queue.feature_queue("feature2").unwrap().len(), 3);
    assert_eq!(queue.len(), 6);
    assert_eq!(contents(&queue, "feature1"), "FIFOQueue<&str> [a, b, b]");
    assert_eq!(contents(&queue, "feature2"), "FIFOQueue<&str> [a, a, b]");
}

#[test]
fn unmapped_key_is_not_stored() {
    let mut queue = PriorityQueue::new(two_features());
    queue.add("c");
    assert_eq!(queue.len(), 0);
    assert!(queue.is_empty());
    assert_eq!(queue.pop(), None);
    queue.add("a");
    queue.add("c");
    assert_eq!(queue.len(), 3);
}

#[test]
fn zero_weight_is_not_stored() {
    let mut config = PriorityQueueConfig::new();
    config.add_feature(
        "only".to_string(),
        weights(vec![("a", 0), ("b", 3)]),
        text_of as Getter,
    );
    let mut queue = PriorityQueue::new(config);
    queue.add("a");
    assert!(queue.is_empty());
    queue.add("b");
    assert_eq!(queue.len(), 3);
    assert_eq!(drain(&mut queue), vec!["b", "b", "b"]);
}

#[test]
fn queue_without_features_holds_nothing() {
    let config: PriorityQueueConfig<&'static str, String, Getter> = PriorityQueueConfig::new();
    let mut queue = PriorityQueue::new(config);
    assert!(queue.is_empty());
    assert_eq!(queue.len(), 0);
    queue.add("a");
    assert!(queue.is_empty());
    assert_eq!(queue.pop(), None);
    assert!(queue.feature_queue("feature1").is_none());
}

#[test]
fn is_empty_agrees_with_len_throughout() {
    let mut queue = PriorityQueue::new(two_features());
    assert_eq!(queue.is_empty(), queue.len() == 0);
    for elem in ["a", "c", "b", "a"] {
        queue.add(elem);
        assert_eq!(queue.is_empty(), queue.len() == 0);
    }
    let mut left = queue.len();
    assert_eq!(left, 9);
    while queue.pop().is_some() {
        left -= 1;
        assert_eq!(queue.len(), left);
        assert_eq!(queue.is_empty(), left == 0);
    }
    assert_eq!(left, 0);
}

#[test]
fn first_feature_wins_a_tie() {
    let mut config = PriorityQueueConfig::new();
    config.add_feature(
        "whole".to_string(),
        weights(vec![("ab", 1), ("cd", 1)]),
        text_of as Getter,
    );
    config.add_feature(
        "initial".to_string(),
        weights(vec![("c", 1), ("a", 1)]),
        initial_of as Getter,
    );
    let mut queue = PriorityQueue::new(config);
    queue.add("ab");
    queue.add("cd");
    // Both queues hold [ab, cd]: they take turns, the first one leading.
    assert_eq!(drain(&mut queue), vec!["ab", "ab", "cd", "cd"]);
}

#[test]
fn features_may_extract_different_keys() {
    let mut config = PriorityQueueConfig::new();
    config.add_feature(
        "whole".to_string(),
        weights(vec![("apple", 1)]),
        text_of as Getter,
    );
    config.add_feature(
        "initial".to_string(),
        weights(vec![("a", 2), ("b", 3)]),
        initial_of as Getter,
    );
    let mut queue = PriorityQueue::new(config);
    queue.add("apple");
    queue.add("avocado");
    queue.add("banana");
    assert_eq!(contents(&queue, "whole"), "FIFOQueue<&str> [apple]");
    assert_eq!(
        contents(&queue, "initial"),
        "FIFOQueue<&str> [apple, apple, avocado, avocado, banana, banana, banana]"
    );
    assert_eq!(queue.len(), 8);
}

#[test]
fn dump_appends_each_feature_queue_in_order() {
    let config = two_features();
    let mut from = PriorityQueue::new(config.clone());
    let mut into = PriorityQueue::new(config.clone());
    into.add("b");
    from.add("a");
    from.add("b");
    from.dump(&mut into);
    assert!(from.is_empty());
    assert_eq!(from.len(), 0);
    assert_eq!(from.pop(), None);
    assert_eq!(contents(&from, "feature1"), "FIFOQueue<&str> []");
    assert_eq!(contents(&into, "feature1"), "FIFOQueue<&str> [b, b, a, b, b]");
    assert_eq!(contents(&into, "feature2"), "FIFOQueue<&str> [b, a, a, b]");
    assert_eq!(into.len(), 9);
}

#[test]
fn dump_into_an_empty_queue_moves_everything() {
    let config = two_features();
    let mut from = PriorityQueue::new(config.clone());
    let mut into = PriorityQueue::new(config.clone());
    from.add("a");
    from.add("b");
    from.dump(&mut into);
    assert!(from.is_empty());
    assert_eq!(into.len(), 6);
    assert_eq!(contents(&into, "feature1"), "FIFOQueue<&str> [a, b, b]");
    assert_eq!(contents(&into, "feature2"), "FIFOQueue<&str> [a, a, b]");
    assert_eq!(drain(&mut into), vec!["a", "a", "b", "a", "b", "b"]);
}

// Emptying a queue interleaves the features, but what leaves one feature
// queue leaves it front to back.
#[test]
fn draining_keeps_the_order_within_a_feature() {
    let mut config = PriorityQueueConfig::new();
    config.add_feature(
        "whole".to_string(),
        weights(vec![("ant", 1), ("bee", 1), ("cat", 1)]),
        text_of as Getter,
    );
    config.add_feature(
        "initial".to_string(),
        weights(vec![("x", 1), ("y", 1)]),
        initial_of as Getter,
    );
    let mut first = PriorityQueue::new(config.clone());
    let mut second = PriorityQueue::new(config.clone());
    first.add("ant");
    first.add("xi");
    first.add("bee");
    second.add("yak");
    second.add("cat");
    second.add("xu");
    first.dump(&mut second);
    let order = drain(&mut second);
    let whole: Vec<&str> = order
        .iter()
        .copied()
        .filter(|elem| ["ant", "bee", "cat"].contains(elem))
        .collect();
    let initial: Vec<&str> = order
        .iter()
        .copied()
        .filter(|elem| ["xi", "xu", "yak"].contains(elem))
        .collect();
    assert_eq!(whole, vec!["cat", "ant", "bee"]);
    assert_eq!(initial, vec!["yak", "xu", "xi"]);
    assert_eq!(order, vec!["cat", "yak", "ant", "xu", "bee", "xi"]);
}

#[test]
fn add_feature_replaces_a_feature_of_the_same_name() {
    let mut config = two_features();
    config.add_feature(
        "feature1".to_string(),
        weights(vec![("a", 5)]),
        text_of as Getter,
    );
    let names: Vec<String> = config
        .features_as_iter()
        .map(|feature| feature.name().clone())
        .collect();
    assert_eq!(names, vec!["feature1".to_string(), "feature2".to_string()]);
    let feature = config.get_feature("feature1").unwrap();
    assert_eq!(feature.weights().len(), 1);
    assert_eq!(feature.weight(&"a".to_string()), 5);
    assert_eq!(feature.weight(&"b".to_string()), 0);
    let mut queue = PriorityQueue::new(config);
    queue.add("a");
    assert_eq!(queue.feature_queue("feature1").unwrap().len(), 5);
    assert_eq!(queue.feature_queue("feature2").unwrap().len(), 2);
}

#[test]
fn get_feature_finds_by_name() {
    let config = two_features();
    let feature = config.get_feature("feature2").unwrap();
    assert_eq!(feature.name(), "feature2");
    assert_eq!(feature.weight(&"a".to_string()), 2);
    assert_eq!(feature.weight(&"b".to_string()), 1);
    assert_eq!(feature.weight(&"c".to_string()), 0);
    assert_eq!(feature.key("b"), "b".to_string());
    assert!(config.get_feature("feature3").is_none());
    assert!(config.get_feature("").is_none());
}

#[test]
fn features_are_walked_in_order_of_registration() {
    let config = two_features();
    let names: Vec<&str> = config
        .features_as_iter()
        .map(|feature| feature.name().as_str())
        .collect();
    assert_eq!(names, vec!["feature1", "feature2"]);
    assert_eq!(config.features_as_iter().count(), 2);
    let empty: PriorityQueueConfig<&'static str, String, Getter> = PriorityQueueConfig::new();
    assert_eq!(empty.features_as_iter().count(), 0);
}

#[test]
fn clone_is_independent_of_its_source() {
    let mut config = two_features();
    let copy = config.clone();
    config.add_feature(
        "feature1".to_string(),
        weights(vec![("a", 7)]),
        text_of as Getter,
    );
    config.add_feature(
        "feature3".to_string(),
        weights(vec![("a", 1)]),
        text_of as Getter,
    );
    assert_eq!(copy.features_as_iter().count(), 2);
    let feature = copy.get_feature("feature1").unwrap();
    assert_eq!(feature.weight(&"a".to_string()), 1);
    assert_eq!(feature.weight(&"b".to_string()), 2);
    assert!(copy.get_feature("feature3").is_none());
    assert_eq!(config.features_as_iter().count(), 3);
}

#[test]
fn queue_keeps_the_configuration_it_was_made_with() {
    let queue = PriorityQueue::new(two_features());
    let names: Vec<&str> = queue
        .config()
        .features_as_iter()
        .map(|feature| feature.name().as_str())
        .collect();
    assert_eq!(names, vec!["feature1", "feature2"]);
    assert!(queue.feature_queue("feature1").unwrap().is_empty());
    assert!(queue.feature_queue("feature3").is_none());
}

#[test]
fn feature_is_described_by_name_and_weight_table() {
    let config = two_features();
    let lines = config.get_feature("feature1").unwrap().describe();
    assert_eq!(lines.len(), 4);
    assert_eq!(lines[0], "Feature: feature1");
    assert_eq!(lines[1], "Weights:");
    let mut table = lines[2..].to_vec();
    table.sort();
    assert_eq!(table, vec!["a: 1", "b: 2"]);
}

#[test]
fn configuration_is_described_feature_by_feature() {
    let mut config = PriorityQueueConfig::new();
    assert_eq!(config.describe(), Vec::<String>::new());
    config.add_feature(
        "whole".to_string(),
        weights(vec![("apple", 3)]),
        text_of as Getter,
    );
    config.add_feature("none".to_string(), weights(vec![]), text_of as Getter);
    config.add_feature(
        "initial".to_string(),
        weights(vec![("a", 10)]),
        initial_of as Getter,
    );
    assert_eq!(
        config.describe(),
        vec![
            "Feature: whole",
            "Weights:",
            "apple: 3",
            "Feature: none",
            "Weights:",
            "Feature: initial",
            "Weights:",
            "a: 10",
        ]
    );
}

#[test]
fn queue_is_described_with_the_contents_of_each_feature_queue() {
    let mut config = PriorityQueueConfig::new();
    config.add_feature(
        "whole".to_string(),
        weights(vec![("apple", 2)]),
        text_of as Getter,
    );
    config.add_feature(
        "initial".to_string(),
        weights(vec![("a", 1)]),
        initial_of as Getter,
    );
    let mut queue = PriorityQueue::new(config);
    queue.add("apple");
    queue.add("avocado");
    assert_eq!(
        queue.describe("&str"),
        vec![
            "Feature: whole",
            "Weights:",
            "apple: 2",
            "Feature: initial",
            "Weights:",
            "a: 1",
            "Queue: whole; FIFOQueue<&str> [apple, apple]",
            "Queue: initial; FIFOQueue<&str> [apple, avocado]",
        ]
    );
}

#[test]
fn feature_holds_its_name_weights_and_extractor() {
    let feature = Feature::new(
        "initial".to_string(),
        weights(vec![("a", 4), ("b", 0)]),
        initial_of as Getter,
    );
    assert_eq!(feature.name(), "initial");
    assert_eq!(feature.weights().len(), 2);
    assert_eq!(feature.weights().get("a"), Some(&4));
    assert_eq!(feature.key("apple"), "a");
    assert_eq!(feature.key("banana"), "b");
    assert_eq!(feature.weight(&feature.key("apple")), 4);
    assert_eq!(feature.weight(&feature.key("banana")), 0);
    assert_eq!(feature.weight(&feature.key("cherry")), 0);
}

#[test]
fn elements_are_stored_as_clones() {
    let whole: fn(String) -> String = |elem| elem;
    let mut config = PriorityQueueConfig::new();
    config.add_feature(
        "whole".to_string(),
        weights(vec![("x", 2), ("y", 1)]),
        whole,
    );
    let mut queue = PriorityQueue::new(config);
    queue.add("x".to_string());
    queue.add("y".to_string());
    assert_eq!(queue.len(), 3);
    assert_eq!(queue.pop(), Some("x".to_string()));
    assert_eq!(queue.pop(), Some("x".to_string()));
    assert_eq!(queue.pop(), Some("y".to_string()));
    assert_eq!(queue.pop(), None);
}
