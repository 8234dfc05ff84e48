//! What the readable description of a configuration and of a priority
//! queue says, line by line.
//!
//! The text of a key, a weight or an element is whatever displaying it
//! gives, and a weight table is listed in the order in which it is walked:
//! so these are relations between a value and its lines, not functions.
use super::fifoqueue::{rendering, shows, texts};
use super::priorityqueue::FeatureView;
use std::fmt::Display;
use vstd::prelude::*;
use vstd::string::to_string_from_display_ensures;

verus! {

/// `text` is a text that displaying `value` gave.
pub open spec fn displays<V: Display>(value: V, text: Seq<char>) -> bool {
    exists|shown: String| to_string_from_display_ensures::<V>(&value, shown) && shown@ == text
}

/// `line` reads the key, a colon and a space, and the weight.
pub open spec fn entry_line<K: Display>(key: K, weight: u32, line: Seq<char>) -> bool {
    exists|key_text: Seq<char>, weight_text: Seq<char>|
        {
            &&& displays(key, key_text)
            &&& displays(weight, weight_text)
            &&& line == key_text + ": "@ + weight_text
        }
}

/// `lines` lists the weight table: one line for each of its entries, in
/// the order `keys`, which holds each key of the table once.
pub open spec fn table_lines_by<K: Display>(
    weights: Map<K, u32>,
    lines: Seq<Seq<char>>,
    keys: Seq<K>,
) -> bool {
    &&& keys.len() == lines.len()
    &&& keys.no_duplicates()
    &&& forall|key: K| keys.contains(key) <==> weights.contains_key(key)
    &&& forall|i: int| 0 <= i < keys.len() ==> entry_line(keys[i], weights[keys[i]], #[trigger] lines[i])
}

/// `lines` lists the weight table, one line for each of its entries, in
/// some order.
pub open spec fn table_lines<K: Display>(weights: Map<K, u32>, lines: Seq<Seq<char>>) -> bool {
    exists|keys: Seq<K>| table_lines_by(weights, lines, keys)
}

/// `lines` describes the feature: its name, a heading, and its weight table.
pub open spec fn feature_lines<K: Display, G>(
    feature: FeatureView<K, G>,
    lines: Seq<Seq<char>>,
) -> bool {
    &&& lines.len() >= 2
    &&& lines[0] == "Feature: "@ + feature.name
    &&& lines[1] == "Weights:"@
    &&& table_lines(feature.weights, lines.skip(2))
}

/// `lines` describes the features one after another, `blocks` holding the
/// lines of each.
pub open spec fn config_lines_by<K: Display, G>(
    features: Seq<FeatureView<K, G>>,
    lines: Seq<Seq<char>>,
    blocks: Seq<Seq<Seq<char>>>,
) -> bool {
    &&& blocks.len() == features.len()
    &&& forall|i: int| 0 <= i < features.len() ==> feature_lines(features[i], #[trigger] blocks[i])
    &&& lines == blocks.flatten()
}

/// `lines` describes the features one after another.
pub open spec fn config_lines<K: Display, G>(
    features: Seq<FeatureView<K, G>>,
    lines: Seq<Seq<char>>,
) -> bool {
    exists|blocks: Seq<Seq<Seq<char>>>| config_lines_by(features, lines, blocks)
}

/// `line` names a feature and shows what its queue holds, for elements of
/// the type called `label`.
pub open spec fn queue_line<T: Display>(
    name: Seq<char>,
    label: Seq<char>,
    items: Seq<T>,
    line: Seq<char>,
) -> bool {
    exists|parts: Seq<String>|
        shows(items, parts) && line == "Queue: "@ + name + "; "@ + rendering(label, texts(parts))
}

/// `lines` describes a priority queue: `cut` lines on its features, then
/// one line for the queue of each feature.
pub open spec fn queue_lines_by<T: Display, K: Display, G>(
    features: Seq<FeatureView<K, G>>,
    state: Seq<Seq<T>>,
    label: Seq<char>,
    lines: Seq<Seq<char>>,
    cut: int,
) -> bool {
    &&& 0 <= cut
    &&& lines.len() == cut + features.len()
    &&& config_lines(features, lines.take(cut))
    &&& forall|i: int|
        0 <= i < features.len() ==> queue_line(features[i].name, label, state[i], #[trigger] lines[cut + i])
}

/// `lines` describes a priority queue: first its features, then what the
/// queue of each feature holds.
pub open spec fn queue_lines<T: Display, K: Display, G>(
    features: Seq<FeatureView<K, G>>,
    state: Seq<Seq<T>>,
    label: Seq<char>,
    lines: Seq<Seq<char>>,
) -> bool {
    exists|cut: int| queue_lines_by(features, state, label, lines, cut)
}

} // verus!
