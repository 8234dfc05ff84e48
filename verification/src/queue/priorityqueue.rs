//! Configurable priority queue implementation
use std::collections::HashMap;
use std::fmt::Debug;
use std::fmt::Display;
use std::hash::Hash;
use std::marker::PhantomData;
use vstd::prelude::*;
use vstd::std_specs::hash::obeys_key_model;
use vstd::std_specs::hash::spec_hash_map_iter;
use vstd::std_specs::iter::IteratorSpec;
use vstd::string::StringExecFns;

use super::describe::{
    config_lines, config_lines_by, entry_line, feature_lines, queue_line, queue_lines,
    queue_lines_by, table_lines_by,
};
use super::fifoqueue::{texts, FIFOQueue};
use super::occupancy::{
    after_pop, empty_queues, is_leader, lemma_leader_is_unique, lemma_total_is_zero,
    lemma_total_of_prefix, merged, popped, total,
};
use super::queue::{Enqueue, Queue};

verus! {

/// The key that `getter` extracts from `elem`.
pub open spec fn key_of<T, K, G: Fn(T) -> K>(getter: G, elem: T) -> K {
    choose|key: K| call_ensures(getter, (elem,), key)
}

/// `getter` is a pure function: it accepts every element, and gives the
/// same key whenever it is handed the same element.
pub open spec fn is_pure<T, K, G: Fn(T) -> K>(getter: G) -> bool {
    &&& forall|elem: T| #[trigger] call_requires(getter, (elem,))
    &&& forall|elem: T, a: K, b: K|
        #![trigger call_ensures(getter, (elem,), a), call_ensures(getter, (elem,), b)]
        call_ensures(getter, (elem,), a) && call_ensures(getter, (elem,), b) ==> a == b
}

/// The weight that `weights` gives to `key`: 0 where it has no entry.
pub open spec fn weight_of<K>(weights: Map<K, u32>, key: K) -> nat {
    if weights.contains_key(key) {
        weights[key] as nat
    } else {
        0
    }
}

/// What a feature is, as plain values: its name, its weight table, and the
/// function that extracts keys from elements.
#[verifier::reject_recursive_types(K)]
pub ghost struct FeatureView<K, G> {
    pub name: Seq<char>,
    pub weights: Map<K, u32>,
    pub getter: G,
}

/// Whether one of `features` is called `name`.
pub open spec fn has_feature<K, G>(features: Seq<FeatureView<K, G>>, name: Seq<char>) -> bool {
    exists|i: int| 0 <= i < features.len() && (#[trigger] features[i]).name == name
}

/// The place of the feature called `name` among `features`.
pub open spec fn position_of<K, G>(features: Seq<FeatureView<K, G>>, name: Seq<char>) -> int
    recommends
        has_feature(features, name),
{
    choose|i: int| 0 <= i < features.len() && (#[trigger] features[i]).name == name
}

/// No two of `features` share a name.
pub open spec fn distinct_names<K, G>(features: Seq<FeatureView<K, G>>) -> bool {
    forall|i: int, j: int|
        0 <= i < j < features.len() ==> (#[trigger] features[i]).name != (#[trigger] features[j]).name
}

/// `features` with `feature` registered: it takes the place of the one that
/// had its name, or comes last where none had.
pub open spec fn with_feature<K, G>(
    features: Seq<FeatureView<K, G>>,
    feature: FeatureView<K, G>,
) -> Seq<FeatureView<K, G>> {
    if has_feature(features, feature.name) {
        features.update(position_of(features, feature.name), feature)
    } else {
        features.push(feature)
    }
}

impl<K, G> FeatureView<K, G> {
    /// The key of `elem` under this feature.
    pub open spec fn key<T>(self, elem: T) -> K where G: Fn(T) -> K {
        key_of(self.getter, elem)
    }

    /// How often an element is stored under this feature: the weight of its key.
    pub open spec fn copies<T>(self, elem: T) -> nat where G: Fn(T) -> K {
        weight_of(self.weights, self.key(elem))
    }
}

/// Whether cloning an element of this type gives an equal element.
pub open spec fn clones_faithfully<T: Clone>() -> bool {
    forall|elem: T, copy: T| #[trigger] cloned(elem, copy) ==> copy == elem
}

/// `count` copies of `elem`.
pub open spec fn replicas<T>(elem: T, count: nat) -> Seq<T> {
    Seq::new(count, |j: int| elem)
}

/// The feature queues after `elem` was added: each has grown, at its back,
/// by as many copies of `elem` as its feature gives weight to the key of `elem`.
pub open spec fn after_add<T, K, G: Fn(T) -> K>(
    features: Seq<FeatureView<K, G>>,
    state: Seq<Seq<T>>,
    elem: T,
) -> Seq<Seq<T>> {
    Seq::new(state.len(), |i: int| state[i] + replicas(elem, features[i].copies(elem)))
}

/// An addition of `elem` may take the queue of `feature` from `before` to
/// `after`, by way of `probe` and `key`: the key was extracted from `probe`,
/// a clone of `elem`, and as many clones of `elem` as the key weighs were
/// put behind what the queue held.
pub open spec fn grows_with<T: Clone, K, G: Fn(T) -> K>(
    feature: FeatureView<K, G>,
    elem: T,
    before: Seq<T>,
    after: Seq<T>,
    probe: T,
    key: K,
) -> bool {
    &&& cloned(elem, probe)
    &&& call_ensures(feature.getter, (probe,), key)
    &&& after.len() == before.len() + weight_of(feature.weights, key)
    &&& after.take(before.len() as int) == before
    &&& forall|j: int| before.len() <= j < after.len() ==> cloned(elem, #[trigger] after[j])
}

/// The queue of `feature` has grown from `before` to `after` by an addition
/// of `elem`.
pub open spec fn grown_by<T: Clone, K, G: Fn(T) -> K>(
    feature: FeatureView<K, G>,
    elem: T,
    before: Seq<T>,
    after: Seq<T>,
) -> bool {
    exists|probe: T, key: K| grows_with(feature, elem, before, after, probe, key)
}

/// Where clones are equal to what they were cloned from, an addition of
/// `elem` stores `elem` itself: as often as the feature weighs the key of
/// `elem`, which the extraction function did return for it.
pub proof fn lemma_grown_by_equal_clones<T: Clone, K, G: Fn(T) -> K>(
    feature: FeatureView<K, G>,
    elem: T,
    before: Seq<T>,
    after: Seq<T>,
)
    requires
        grown_by(feature, elem, before, after),
        clones_faithfully::<T>(),
        is_pure::<T, K, G>(feature.getter),
    ensures
        after == before + replicas(elem, feature.copies(elem)),
        call_ensures(feature.getter, (elem,), feature.key(elem)),
{
    let (probe, key) = choose|probe: T, key: K|
        grows_with(feature, elem, before, after, probe, key);
    assert(probe == elem);
    assert(key == feature.key(elem));
    let grown = before + replicas(elem, feature.copies(elem));
    assert forall|j: int| 0 <= j < after.len() implies after[j] == grown[j] by {
        if j < before.len() {
            assert(after.take(before.len() as int)[j] == after[j]);
        }
    }
    assert(after =~= grown);
}

/// The names of `features`, in order.
pub open spec fn names_of<K, G>(features: Seq<FeatureView<K, G>>) -> Seq<Seq<char>> {
    features.map_values(|feature: FeatureView<K, G>| feature.name)
}

/// A named weighting rule: `getter` extracts a key from an element, and
/// `weights` maps keys to weights.
#[verifier::reject_recursive_types(K)]
pub struct Feature<T, K, G> where
    T: Display + Debug,
    K: Hash + Eq + Display + Debug,
    G: Fn(T) -> K + Copy,
 {
    name: String,
    weights: HashMap<K, u32>,
    getter: G,
    elems: PhantomData<T>,
}

impl<T, K, G> View for Feature<T, K, G> where
    T: Display + Debug,
    K: Hash + Eq + Display + Debug,
    G: Fn(T) -> K + Copy,
 {
    type V = FeatureView<K, G>;

    closed spec fn view(&self) -> FeatureView<K, G> {
        FeatureView { name: self.name@, weights: self.weights@, getter: self.getter }
    }
}

impl<T, K, G> Feature<T, K, G> where
    T: Display + Debug,
    K: Hash + Eq + Display + Debug,
    G: Fn(T) -> K + Copy,
 {
    /// A feature is built from its three parts.
    pub fn new(name: String, weights: HashMap<K, u32>, getter: G) -> (feature: Self)
        ensures
            feature@ == (FeatureView { name: name@, weights: weights@, getter }),
    {
        Self { name, weights, getter, elems: PhantomData }
    }

    /// The name under which the feature is registered.
    pub fn name(&self) -> (name: &String)
        ensures
            name@ == self@.name,
    {
        &self.name
    }

    /// The weight table.
    pub fn weights(&self) -> (weights: &HashMap<K, u32>)
        ensures
            weights@ == self@.weights,
    {
        &self.weights
    }

    /// The weight of `key`: its entry in the weight table, or 0 without one.
    pub fn weight(&self, key: &K) -> (weight: u32)
        requires
            obeys_key_model::<K>(),
        ensures
            weight == weight_of(self@.weights, *key),
    {
        match self.weights.get(key) {
            Some(weight) => *weight,
            None => 0,
        }
    }

    /// The lines that describe the feature: its name, a heading, and one
    /// line for each entry of the weight table.
    pub fn describe(&self) -> (lines: Vec<String>)
        requires
            obeys_key_model::<K>(),
        ensures
            feature_lines(self@, texts(lines@)),
    {
        let mut heading = String::from_str("Feature: ");
        heading.append(self.name.as_str());
        let mut lines: Vec<String> = Vec::new();
        lines.push(heading);
        lines.push(String::from_str("Weights:"));
        let ghost mut keys: Seq<K> = Seq::empty();
        for entry in iter: self.weights.iter()
            invariant
                obeys_key_model::<K>(),
                iter.seq() == spec_hash_map_iter(&self.weights).remaining(),
                iter.seq().no_duplicates(),
                lines@.len() == 2 + iter.index(),
                lines@[0]@ == "Feature: "@ + self@.name,
                lines@[1]@ == "Weights:"@,
                keys.len() == iter.index(),
                forall|i: int| 0 <= i < keys.len() ==> #[trigger] keys[i] == *iter.seq()[i].0,
                forall|i: int|
                    0 <= i < keys.len() ==> entry_line(
                        keys[i],
                        self@.weights[keys[i]],
                        #[trigger] lines@[i + 2]@,
                    ),
        {
            let (key, weight) = entry;
            let mut line = key.to_string();
            line.append(": ");
            line.append(weight.to_string().as_str());
            lines.push(line);
            proof {
                keys = keys.push(*key);
            }
        }
        proof {
            let table = self@.weights;
            let walked = spec_hash_map_iter(&self.weights).remaining();
            let listed = texts(lines@).skip(2);
            assert(keys.len() == walked.len() == listed.len());
            assert forall|i: int, j: int| 0 <= i < j < keys.len() implies keys[i] != keys[j] by {
                assert(table[*walked[i].0] == *walked[i].1);
                assert(table[*walked[j].0] == *walked[j].1);
                assert(walked[i] != walked[j]);
            }
            assert forall|key: K| keys.contains(key) <==> table.contains_key(key) by {
                if keys.contains(key) {
                    let i = choose|i: int| 0 <= i < keys.len() && keys[i] == key;
                    assert(table.contains_key(*walked[i].0));
                }
                if table.contains_key(key) {
                    assert(walked.contains((&key, &table[key])));
                    let i = choose|i: int| 0 <= i < walked.len() && walked[i] == (&key, &table[key]);
                    assert(keys[i] == key);
                }
            }
            assert forall|i: int| 0 <= i < keys.len() implies entry_line(
                keys[i],
                table[keys[i]],
                #[trigger] listed[i],
            ) by {
                assert(listed[i] == lines@[i + 2]@);
            }
            assert(table_lines_by(table, listed, keys));
        }
        lines
    }

    /// Extracts the key of `elem`.
    pub fn key(&self, elem: T) -> (key: K)
        requires
            is_pure(self@.getter),
        ensures
            call_ensures(self@.getter, (elem,), key),
            key == self@.key(elem),
    {
        (self.getter)(elem)
    }
}

/// The features by which a priority queue weighs its elements, each under
/// a name of its own.
#[verifier::reject_recursive_types(K)]
pub struct PriorityQueueConfig<T, K, G> where
    T: Display + Debug,
    K: Hash + Eq + Display + Debug + Clone,
    G: Fn(T) -> K + Copy,
 {
    /// In the order in which their names were first registered.
    features: Vec<Feature<T, K, G>>,
}

impl<T, K, G> View for PriorityQueueConfig<T, K, G> where
    T: Display + Debug,
    K: Hash + Eq + Display + Debug + Clone,
    G: Fn(T) -> K + Copy,
 {
    type V = Seq<FeatureView<K, G>>;

    /// The features, in the order in which they are walked.
    closed spec fn view(&self) -> Seq<FeatureView<K, G>> {
        self.features@.map_values(|feature: Feature<T, K, G>| feature@)
    }
}

impl<T, K, G> PriorityQueueConfig<T, K, G> where
    T: Display + Debug,
    K: Hash + Eq + Display + Debug + Clone,
    G: Fn(T) -> K + Copy,
 {
    /// Names are unique, every extraction function is pure, and the keys
    /// of the weight tables compare and hash lawfully.
    pub open spec fn wf(&self) -> bool {
        &&& distinct_names(self@)
        &&& forall|i: int| 0 <= i < self@.len() ==> is_pure::<T, K, G>((#[trigger] self@[i]).getter)
        &&& self@.len() > 0 ==> obeys_key_model::<K>()
    }

    /// A configuration without features.
    pub fn new() -> (config: Self)
        ensures
            config.wf(),
            config@ == Seq::<FeatureView<K, G>>::empty(),
    {
        let config = Self { features: Vec::new() };
        assert(config@ =~= Seq::<FeatureView<K, G>>::empty());
        config
    }

    /// Registers a feature under `name`, in place of the one that had this
    /// name if there was one.
    pub fn add_feature(&mut self, name: String, weights: HashMap<K, u32>, getter: G)
        requires
            old(self).wf(),
            is_pure(getter),
            obeys_key_model::<K>(),
        ensures
            final(self).wf(),
            final(self)@ == with_feature(
                old(self)@,
                (FeatureView { name: name@, weights: weights@, getter }),
            ),
    {
        let ghost added = FeatureView { name: name@, weights: weights@, getter };
        let mut i: usize = 0;
        while i < self.features.len()
            invariant
                *self == *old(self),
                self.wf(),
                is_pure(getter),
                added == (FeatureView { name: name@, weights: weights@, getter }),
                i <= self.features@.len(),
                forall|j: int| 0 <= j < i ==> (#[trigger] self@[j]).name != name@,
            decreases self.features@.len() - i,
        {
            if self.features[i].name == name {
                proof {
                    assert(self@[i as int] == self.features@[i as int]@);
                    assert(position_of(self@, added.name) == i);
                }
                self.features[i] = Feature::new(name, weights, getter);
                proof {
                    assert(self@ =~= old(self)@.update(i as int, added));
                    assert forall|a: int, b: int| 0 <= a < b < self@.len() implies (#[trigger] self@[a]).name
                        != (#[trigger] self@[b]).name by {
                        assert(old(self)@[a].name != old(self)@[b].name);
                    }
                }
                return ;
            }
            i += 1;
        }
        self.features.push(Feature::new(name, weights, getter));
        assert(self@ =~= old(self)@.push(added));
    }

    /// The feature registered under `name`, if there is one.
    pub fn get_feature(&self, name: &str) -> (found: Option<&Feature<T, K, G>>)
        requires
            self.wf(),
        ensures
            match found {
                Some(feature) => has_feature(self@, name@) && feature@ == self@[position_of(
                    self@,
                    name@,
                )],
                None => !has_feature(self@, name@),
            },
    {
        let wanted = name.to_owned();
        let mut i: usize = 0;
        while i < self.features.len()
            invariant
                self.wf(),
                wanted@ == name@,
                i <= self.features@.len(),
                forall|j: int| 0 <= j < i ==> (#[trigger] self@[j]).name != name@,
            decreases self.features@.len() - i,
        {
            if self.features[i].name == wanted {
                assert(self@[i as int] == self.features@[i as int]@);
                assert(position_of(self@, name@) == i);
                return Some(&self.features[i]);
            }
            i += 1;
        }
        None
    }

    /// Walks the features, in the order of the view.
    pub fn features_as_iter(&self) -> (features: std::slice::Iter<'_, Feature<T, K, G>>)
        ensures
            vstd::std_specs::slice::into_iter_elts(features).map_values(
                |feature: Feature<T, K, G>| feature@,
            ) == self@,
    {
        self.features.iter()
    }

    /// The lines that describe the configuration: for each feature its
    /// name and its weight table.
    pub fn describe(&self) -> (lines: Vec<String>)
        requires
            self.wf(),
        ensures
            config_lines(self@, texts(lines@)),
    {
        let mut lines: Vec<String> = Vec::new();
        let ghost mut blocks: Seq<Seq<Seq<char>>> = Seq::empty();
        let mut i: usize = 0;
        assert(texts(lines@) =~= blocks.flatten());
        while i < self.features.len()
            invariant
                self.wf(),
                i <= self.features@.len(),
                config_lines_by(self@.take(i as int), texts(lines@), blocks),
            decreases self.features@.len() - i,
        {
            let mut block = self.features[i].describe();
            proof {
                assert(self@[i as int] == self.features@[i as int]@);
                assert(self@.take(i as int).push(self@[i as int]) =~= self@.take(i + 1));
                assert(texts(lines@ + block@) =~= texts(lines@) + texts(block@));
                blocks.lemma_flatten_push(texts(block@));
                blocks = blocks.push(texts(block@));
            }
            lines.append(&mut block);
            i += 1;
        }
        assert(self@.take(i as int) =~= self@);
        lines
    }

    /// A copy with the same features: the weight tables are copied, the
    /// extraction functions are shared.
    pub fn clone(&self) -> (config: Self)
        requires
            self.wf(),
        ensures
            config.wf(),
            config@ == self@,
    {
        let mut config = Self::new();
        let mut i: usize = 0;
        while i < self.features.len()
            invariant
                self.wf(),
                config.wf(),
                i <= self.features@.len(),
                config@ == self@.take(i as int),
            decreases self.features@.len() - i,
        {
            let feature = &self.features[i];
            proof {
                assert(self@[i as int] == feature@);
                assert(!has_feature(config@, feature@.name));
                assert(self@.take(i as int).push(feature@) =~= self@.take(i + 1));
            }
            config.add_feature(feature.name.clone(), feature.weights.clone(), feature.getter);
            i += 1;
        }
        assert(self@.take(i as int) =~= self@);
        config
    }
}

/// A queue that keeps one FIFO queue for each feature of its configuration.
/// An element is stored in each of them as often as the feature weighs it,
/// and leaves from the fullest.
#[verifier::reject_recursive_types(K)]
pub struct PriorityQueue<T, K, G> where
    T: Display + Debug + Clone,
    K: Hash + Eq + Display + Debug + Clone,
    G: Fn(T) -> K + Copy,
 {
    config: PriorityQueueConfig<T, K, G>,
    /// The queue of each feature, at the feature's place in the configuration.
    queues: Vec<FIFOQueue<T>>,
}

impl<T, K, G> View for PriorityQueue<T, K, G> where
    T: Display + Debug + Clone,
    K: Hash + Eq + Display + Debug + Clone,
    G: Fn(T) -> K + Copy,
 {
    type V = Seq<Seq<T>>;

    /// The contents of the feature queues, in the order of the features.
    closed spec fn view(&self) -> Seq<Seq<T>> {
        self.queues@.map_values(|queue: FIFOQueue<T>| queue@)
    }
}

impl<T, K, G> PriorityQueue<T, K, G> where
    T: Display + Debug + Clone,
    K: Hash + Eq + Display + Debug + Clone,
    G: Fn(T) -> K + Copy,
 {
    /// The features of the configuration that the queue was made with.
    pub closed spec fn features(&self) -> Seq<FeatureView<K, G>> {
        self.config@
    }

    /// The configuration is well formed, and every feature has its queue.
    pub closed spec fn wf(&self) -> bool {
        &&& self.config.wf()
        &&& self.queues@.len() == self.config@.len()
        &&& forall|i: int| 0 <= i < self.queues@.len() ==> (#[trigger] self.queues@[i]).wf()
    }

    /// There are as many feature queues as features.
    pub proof fn lemma_queue_per_feature(&self)
        requires
            self.wf(),
        ensures
            self@.len() == self.features().len(),
    {
    }

    /// An empty priority queue for the features of `config`.
    pub fn new(config: PriorityQueueConfig<T, K, G>) -> (queue: Self)
        requires
            config.wf(),
        ensures
            queue.wf(),
            queue.features() == config@,
            queue@ == empty_queues::<T>(config@.len()),
    {
        let mut queues: Vec<FIFOQueue<T>> = Vec::new();
        let mut i: usize = 0;
        while i < config.features.len()
            invariant
                i <= config.features@.len(),
                queues@.len() == i,
                forall|j: int| 0 <= j < i ==> (#[trigger] queues@[j]).wf(),
                forall|j: int| 0 <= j < i ==> (#[trigger] queues@[j])@ == Seq::<T>::empty(),
            decreases config.features@.len() - i,
        {
            queues.push(FIFOQueue::new());
            i += 1;
        }
        let queue = Self { config, queues };
        assert(queue@ =~= empty_queues::<T>(config@.len()));
        queue
    }

    /// The configuration that the queue was made with.
    pub fn config(&self) -> (config: &PriorityQueueConfig<T, K, G>)
        ensures
            config@ == self.features(),
            self.wf() ==> config.wf(),
    {
        &self.config
    }

    /// The queue that is kept for the feature called `name`, if there is
    /// such a feature.
    pub fn feature_queue(&self, name: &str) -> (found: Option<&FIFOQueue<T>>)
        requires
            self.wf(),
        ensures
            match found {
                Some(queue) => {
                    &&& has_feature(self.features(), name@)
                    &&& queue.wf()
                    &&& queue@ == self@[position_of(self.features(), name@)]
                },
                None => !has_feature(self.features(), name@),
            },
    {
        let wanted = name.to_owned();
        let mut i: usize = 0;
        while i < self.queues.len()
            invariant
                self.wf(),
                wanted@ == name@,
                i <= self.queues@.len(),
                forall|j: int| 0 <= j < i ==> (#[trigger] self.features()[j]).name != name@,
            decreases self.queues@.len() - i,
        {
            if self.config.features[i].name == wanted {
                assert(self.features()[i as int] == self.config.features@[i as int]@);
                assert(position_of(self.features(), name@) == i);
                assert(self@[i as int] == self.queues@[i as int]@);
                return Some(&self.queues[i]);
            }
            assert(self.features()[i as int] == self.config.features@[i as int]@);
            i += 1;
        }
        None
    }

    /// The lines that describe the queue: those of its configuration, then
    /// for each feature its name and what its queue holds. `label` is the
    /// name of the element type.
    pub fn describe(&self, label: &str) -> (lines: Vec<String>)
        requires
            self.wf(),
        ensures
            queue_lines(self.features(), self@, label@, texts(lines@)),
    {
        let mut lines = self.config.describe();
        let ghost cut = lines@.len() as int;
        let ghost head = texts(lines@);
        let mut i: usize = 0;
        while i < self.queues.len()
            invariant
                self.wf(),
                i <= self.queues@.len(),
                0 <= cut,
                lines@.len() == cut + i,
                texts(lines@).take(cut) == head,
                config_lines(self.features(), head),
                forall|j: int|
                    0 <= j < i ==> queue_line(
                        self.features()[j].name,
                        label@,
                        self@[j],
                        #[trigger] texts(lines@)[cut + j],
                    ),
            decreases self.queues@.len() - i,
        {
            let ghost earlier = texts(lines@);
            let shown = self.queues[i].to_string(label);
            let mut line = String::from_str("Queue: ");
            line.append(self.config.features[i].name.as_str());
            line.append("; ");
            line.append(shown.as_str());
            proof {
                assert(self.features()[i as int] == self.config.features@[i as int]@);
                assert(self@[i as int] == self.queues@[i as int]@);
                assert(queue_line(self.features()[i as int].name, label@, self@[i as int], line@));
            }
            lines.push(line);
            proof {
                assert(texts(lines@) =~= earlier.push(line@));
                assert(texts(lines@).take(cut) =~= earlier.take(cut));
                assert forall|j: int| 0 <= j < i + 1 implies queue_line(
                    self.features()[j].name,
                    label@,
                    self@[j],
                    #[trigger] texts(lines@)[cut + j],
                ) by {
                    if j < i {
                        assert(texts(lines@)[cut + j] == earlier[cut + j]);
                    }
                }
            }
            i += 1;
        }
        proof {
            assert(queue_lines_by(self.features(), self@, label@, texts(lines@), cut));
        }
        lines
    }

    /// Stores `elem` in the queue of each feature, as often as the feature
    /// weighs the key of `elem`. The key is extracted from a clone of
    /// `elem`, and what is stored are clones of it.
    pub fn add(&mut self, elem: T)
        requires
            old(self).wf(),
        ensures
            final(self).wf(),
            final(self).features() == old(self).features(),
            final(self)@.len() == old(self)@.len(),
            forall|i: int|
                0 <= i < old(self)@.len() ==> grown_by(
                    old(self).features()[i],
                    elem,
                    old(self)@[i],
                    #[trigger] final(self)@[i],
                ),
            clones_faithfully::<T>() ==> final(self)@ == after_add(
                old(self).features(),
                old(self)@,
                elem,
            ),
            clones_faithfully::<T>() ==> forall|i: int|
                0 <= i < old(self)@.len() ==> (#[trigger] final(self)@[i]).len() == old(self)@[i].len()
                    + old(self).features()[i].copies(elem),
            clones_faithfully::<T>() ==> forall|i: int|
                0 <= i < old(self)@.len() ==> call_ensures(
                    (#[trigger] old(self).features()[i]).getter,
                    (elem,),
                    old(self).features()[i].key(elem),
                ),
    {
        let mut i: usize = 0;
        while i < self.config.features.len()
            invariant
                self.wf(),
                self.config == old(self).config,
                i <= self.queues@.len(),
                self@.len() == old(self)@.len(),
                forall|j: int|
                    0 <= j < i ==> grown_by(
                        self.features()[j],
                        elem,
                        old(self)@[j],
                        #[trigger] self@[j],
                    ),
                forall|j: int| i <= j < self@.len() ==> #[trigger] self@[j] == old(self)@[j],
            decreases self.queues@.len() - i,
        {
            let feature = &self.config.features[i];
            assert(self.features()[i as int] == feature@);
            let probe = elem.clone();
            let ghost probed = probe;
            let key = feature.key(probe);
            let weight = feature.weight(&key);
            let ghost before = self@;
            let mut stored: u32 = 0;
            while stored < weight
                invariant
                    self.wf(),
                    self.config == old(self).config,
                    i < self.queues@.len(),
                    stored <= weight,
                    self@.len() == before.len(),
                    forall|j: int| 0 <= j < self@.len() && j != i ==> #[trigger] self@[j] == before[j],
                    self@[i as int].len() == before[i as int].len() + stored,
                    self@[i as int].take(before[i as int].len() as int) == before[i as int],
                    forall|j: int|
                        before[i as int].len() <= j < self@[i as int].len() ==> cloned(
                            elem,
                            #[trigger] self@[i as int][j],
                        ),
                decreases weight - stored,
            {
                let ghost earlier = self@;
                let copy = elem.clone();
                self.queues[i].add(copy);
                stored += 1;
                proof {
                    assert(self@[i as int] == self.queues@[i as int]@);
                    assert(self@[i as int] == earlier[i as int].push(copy));
                    assert(self@[i as int].take(before[i as int].len() as int)
                        =~= earlier[i as int].take(before[i as int].len() as int));
                    assert forall|j: int| 0 <= j < self@.len() && j != i implies #[trigger] self@[j]
                        == before[j] by {
                        assert(self@[j] == earlier[j]);
                    }
                }
            }
            proof {
                assert(grows_with(feature@, elem, before[i as int], self@[i as int], probed, key));
                assert forall|j: int| 0 <= j < i implies grown_by(
                    self.features()[j],
                    elem,
                    old(self)@[j],
                    #[trigger] self@[j],
                ) by {
                    assert(self@[j] == before[j]);
                }
            }
            i += 1;
        }
        proof {
            if clones_faithfully::<T>() {
                assert forall|j: int| 0 <= j < self@.len() implies #[trigger] self@[j] == old(self)@[j]
                    + replicas(elem, self.features()[j].copies(elem)) by {
                    lemma_grown_by_equal_clones(self.features()[j], elem, old(self)@[j], self@[j]);
                }
                assert forall|j: int| 0 <= j < self@.len() implies call_ensures(
                    (#[trigger] self.features()[j]).getter,
                    (elem,),
                    self.features()[j].key(elem),
                ) by {
                    lemma_grown_by_equal_clones(self.features()[j], elem, old(self)@[j], self@[j]);
                }
                assert(self@ =~= after_add(old(self).features(), old(self)@, elem));
            }
        }
    }

    /// Removes the element with the highest priority and returns it: the
    /// front of the fullest feature queue, and of the first such queue
    /// where several are equally full.
    pub fn pop(&mut self) -> (front: Option<T>)
        requires
            old(self).wf(),
        ensures
            final(self).wf(),
            final(self).features() == old(self).features(),
            front == popped(old(self)@),
            final(self)@ == after_pop(old(self)@),
            front is None <==> total(old(self)@) == 0,
    {
        let mut max_weight: usize = 0;
        let mut max_queue: Option<usize> = None;
        let mut i: usize = 0;
        while i < self.queues.len()
            invariant
                self.wf(),
                *self == *old(self),
                i <= self.queues@.len(),
                forall|j: int| 0 <= j < i ==> (#[trigger] self@[j]).len() <= max_weight,
                match max_queue {
                    Some(best) => {
                        &&& best < i
                        &&& max_weight > 0
                        &&& self@[best as int].len() == max_weight
                        &&& forall|j: int| 0 <= j < best ==> (#[trigger] self@[j]).len() < max_weight
                    },
                    None => max_weight == 0,
                },
            decreases self.queues@.len() - i,
        {
            let weight = self.queues[i].len();
            assert(self@[i as int] == self.queues@[i as int]@);
            if weight > max_weight {
                max_weight = weight;
                max_queue = Some(i);
            }
            i += 1;
        }
        proof {
            lemma_total_is_zero(self@);
        }
        match max_queue {
            Some(best) => {
                proof {
                    assert(is_leader(self@, best as int));
                    lemma_leader_is_unique(self@, best as int);
                }
                let front = self.queues[best].get();
                proof {
                    assert(old(self)@[best as int] == old(self).queues@[best as int]@);
                    assert(self@ =~= old(self)@.update(
                        best as int,
                        old(self)@[best as int].drop_first(),
                    ));
                }
                front
            },
            None => None,
        }
    }

    /// The number of entries in all feature queues together. An element
    /// counts once for each copy that is stored of it.
    pub fn len(&self) -> (n: usize)
        requires
            self.wf(),
            total(self@) <= usize::MAX,
        ensures
            n == total(self@),
    {
        let mut sum: usize = 0;
        let mut i: usize = 0;
        while i < self.queues.len()
            invariant
                self.wf(),
                total(self@) <= usize::MAX,
                i <= self.queues@.len(),
                sum == total(self@.take(i as int)),
            decreases self.queues@.len() - i,
        {
            proof {
                assert(self@[i as int] == self.queues@[i as int]@);
                lemma_total_of_prefix(self@, i as int);
                lemma_total_of_prefix(self@, i + 1);
            }
            sum += self.queues[i].len();
            i += 1;
        }
        assert(self@.take(i as int) =~= self@);
        sum
    }

    /// Whether no feature queue holds anything.
    pub fn is_empty(&self) -> (empty: bool)
        requires
            self.wf(),
        ensures
            empty == (total(self@) == 0),
    {
        let mut i: usize = 0;
        while i < self.queues.len()
            invariant
                self.wf(),
                i <= self.queues@.len(),
                forall|j: int| 0 <= j < i ==> (#[trigger] self@[j]).len() == 0,
            decreases self.queues@.len() - i,
        {
            assert(self@[i as int] == self.queues@[i as int]@);
            if !self.queues[i].is_empty() {
                proof {
                    lemma_total_is_zero(self@);
                }
                return false;
            }
            i += 1;
        }
        proof {
            lemma_total_is_zero(self@);
        }
        true
    }

    /// Moves the contents of each feature queue to the back of the queue
    /// that `other` keeps for the same feature, in order.
    pub fn dump(&mut self, other: &mut Self)
        requires
            old(self).wf(),
            old(other).wf(),
            names_of(old(self).features()) == names_of(old(other).features()),
        ensures
            final(self).wf(),
            final(other).wf(),
            final(self).features() == old(self).features(),
            final(other).features() == old(other).features(),
            final(self)@ == empty_queues::<T>(old(self)@.len()),
            final(other)@ == merged(old(other)@, old(self)@),
    {
        assert(old(self)@.len() == old(other)@.len()) by {
            assert(names_of(old(self).features()).len() == old(self)@.len());
            assert(names_of(old(other).features()).len() == old(other)@.len());
        }
        let mut i: usize = 0;
        while i < self.queues.len()
            invariant
                self.wf(),
                other.wf(),
                self.config == old(self).config,
                other.config == old(other).config,
                i <= self.queues@.len(),
                self@.len() == old(self)@.len(),
                other@.len() == old(other)@.len(),
                self@.len() == other@.len(),
                forall|j: int| 0 <= j < i ==> #[trigger] self@[j] == Seq::<T>::empty(),
                forall|j: int| i <= j < self@.len() ==> #[trigger] self@[j] == old(self)@[j],
                forall|j: int|
                    0 <= j < i ==> #[trigger] other@[j] == old(other)@[j] + old(self)@[j],
                forall|j: int| i <= j < other@.len() ==> #[trigger] other@[j] == old(other)@[j],
            decreases self.queues@.len() - i,
        {
            let ghost mine = self@;
            let ghost theirs = other@;
            assert(mine[i as int] == self.queues@[i as int]@);
            assert(theirs[i as int] == other.queues@[i as int]@);
            self.queues[i].dump(&mut other.queues[i]);
            proof {
                assert(self@[i as int] == self.queues@[i as int]@);
                assert(other@[i as int] == other.queues@[i as int]@);
                assert forall|j: int| 0 <= j < self@.len() && j != i implies #[trigger] self@[j]
                    == mine[j] by {
                    assert(self@[j] == self.queues@[j]@);
                }
                assert forall|j: int| 0 <= j < other@.len() && j != i implies #[trigger] other@[j]
                    == theirs[j] by {
                    assert(other@[j] == other.queues@[j]@);
                }
            }
            i += 1;
        }
        assert(self@ =~= empty_queues::<T>(old(self)@.len()));
        assert(other@ =~= merged(old(other)@, old(self)@));
    }
}

} // verus!
