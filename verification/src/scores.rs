//! Similarity scores. A score is a number that is larger the more similar two
//! things are.

use vstd::hash_map::StringHashMap;
use vstd::prelude::*;

use crate::lists::{pick, picked};
use crate::order::{
    arrange, keys_of, lemma_arranges_distinct, lemma_stable_order_exists, places, precedes, runs_of,
    run_less, stable_order, Keyed, Part, PartsKey,
};

verus! {

/// The key that orders by score, higher scores first.
pub open spec fn score_key(score: u32) -> Seq<Seq<int>> {
    seq![seq![u32::MAX - score]]
}

/// The keys of a list by score.
pub open spec fn score_keys<V>(list: Seq<(V, u32)>) -> Seq<Seq<Seq<int>>> {
    list.map_values(|entry: (V, u32)| score_key(entry.1))
}

/// A list by score, higher scores first and equal ones as they stood.
pub open spec fn by_score<V>(list: Seq<(V, u32)>) -> Seq<(V, u32)> {
    picked(list, stable_order(score_keys(list)))
}

/// The contents of a list with scores.
pub open spec fn scored_view<T: View>(list: Seq<(T, u32)>) -> Seq<(T::V, u32)> {
    list.map_values(|entry: (T, u32)| (entry.0@, entry.1))
}

/// Scores by name; of several for one name the last.
pub open spec fn score_map(pairs: Seq<(Seq<char>, u32)>) -> Map<Seq<char>, u32>
    decreases pairs.len(),
{
    if pairs.len() == 0 {
        Map::empty()
    } else {
        score_map(pairs.drop_last()).insert(pairs.last().0, pairs.last().1)
    }
}

/// The score of a name; nothing where it has none.
pub open spec fn score_of(scores: Map<Seq<char>, u32>, name: Seq<char>) -> u32 {
    if scores.dom().contains(name) {
        scores[name]
    } else {
        0
    }
}

/// The contents of a list of names with scores.
pub open spec fn pairs_view(pairs: Seq<(String, u32)>) -> Seq<(Seq<char>, u32)> {
    pairs.map_values(|pair: (String, u32)| (pair.0@, pair.1))
}

/// The names of a list of names with scores.
pub open spec fn names_of(pairs: Seq<(Seq<char>, u32)>) -> Seq<Seq<char>> {
    pairs.map_values(|pair: (Seq<char>, u32)| pair.0)
}

/// Scores by name.
pub struct Scores {
    map: StringHashMap<u32>,
}

impl View for Scores {
    type V = Map<Seq<char>, u32>;

    closed spec fn view(&self) -> Map<Seq<char>, u32> {
        self.map@
    }
}

impl Scores {
    /// The scores of a list; of several for one name the last.
    pub fn of(pairs: &Vec<(String, u32)>) -> (scores: Scores)
        ensures
            scores@ == score_map(pairs_view(pairs@)),
    {
        let mut map: StringHashMap<u32> = StringHashMap::new();
        let ghost all = pairs_view(pairs@);
        let mut i: usize = 0;
        assert(all.take(0) =~= seq![]);
        while i < pairs.len()
            invariant
                i <= pairs@.len(),
                all == pairs_view(pairs@),
                map@ == score_map(all.take(i as int)),
            decreases pairs@.len() - i,
        {
            map.insert(pairs[i].0.clone(), pairs[i].1);
            assert(all.take(i + 1).drop_last() =~= all.take(i as int));
            i = i + 1;
        }
        assert(all.take(i as int) =~= all);
        Scores { map }
    }

    /// The score of a name, where it has one.
    pub fn get(&self, name: &str) -> (score: Option<u32>)
        ensures
            score == (if self@.dom().contains(name@) {
                Some(self@[name@])
            } else {
                None
            }),
    {
        match self.map.get(name) {
            Some(score) => Some(*score),
            None => None,
        }
    }

    /// The score of a name; nothing where it has none.
    pub fn of_name(&self, name: &str) -> (score: u32)
        ensures
            score == score_of(self@, name@),
    {
        match self.map.get(name) {
            Some(score) => *score,
            None => 0,
        }
    }
}

/// A list by score, higher scores first and equal ones as they stood.
pub fn sort_by_score<T: View>(list: Vec<(T, u32)>) -> (sorted: Vec<(T, u32)>)
    ensures
        scored_view(sorted@) == by_score(scored_view(list@)),
{
    let ghost all = scored_view(list@);
    let mut keys: Vec<PartsKey> = Vec::new();
    let mut i: usize = 0;
    while i < list.len()
        invariant
            i <= list@.len(),
            all == scored_view(list@),
            keys@.len() == i,
            forall|k: int| 0 <= k < i ==> (#[trigger] keys@[k]).key() == score_key(all[k].1),
        decreases list@.len() - i,
    {
        let mut parts: Vec<Part> = Vec::new();
        parts.push(Part::Number((u32::MAX - list[i].1) as u64));
        assert(runs_of(parts@) =~= score_key(all[i as int].1));
        keys.push(PartsKey { parts });
        i = i + 1;
    }
    let order = arrange(&keys);
    proof {
        assert(keys_of(keys@) =~= score_keys(all));
        lemma_arranges_distinct(score_keys(all), 0, all.len() as int, places(order@));
        assert forall|a: int| 0 <= a < order@.len() implies #[trigger] order@[a] < list@.len() by {
            assert(places(order@)[a] == order@[a] as int);
        }
    }
    let sorted = pick(list, &order);
    proof {
        assert(scored_view(sorted@) =~= by_score(all)) by {
            assert forall|a: int| 0 <= a < sorted@.len() implies scored_view(sorted@)[a]
                == by_score(all)[a] by {
                assert(places(order@)[a] == order@[a] as int);
            }
        }
    }
    sorted
}

/// Lists by score hold what they held, and no score is followed by a higher one.
pub proof fn law_by_score<V>(list: Seq<(V, u32)>)
    ensures
        by_score(list).len() == list.len(),
        forall|entry: (V, u32)| #[trigger] by_score(list).contains(entry) <==> list.contains(entry),
        forall|a: int, b: int|
            0 <= a < b < by_score(list).len() ==> (#[trigger] by_score(list)[a]).1 >= (
            #[trigger] by_score(list)[b]).1,
{
    let keys = score_keys(list);
    let order = stable_order(keys);
    let out = by_score(list);
    lemma_stable_order_exists(keys);
    assert forall|a: int, b: int| 0 <= a < b < out.len() implies (#[trigger] out[a]).1 >= (
    #[trigger] out[b]).1 by {
        assert(precedes(keys, order[a], order[b]));
        assert(keys[order[a]] == score_key(out[a].1));
        assert(keys[order[b]] == score_key(out[b].1));
        let x = score_key(out[a].1);
        let y = score_key(out[b].1);
        assert(x[0][0] == u32::MAX - out[a].1);
        assert(y[0][0] == u32::MAX - out[b].1);
        reveal_with_fuel(crate::order::key_less, 2);
        reveal_with_fuel(run_less, 2);
    }
    assert forall|entry: (V, u32)| #[trigger] out.contains(entry) <==> list.contains(entry) by {
        if list.contains(entry) {
            let i = choose|i: int| 0 <= i < list.len() && list[i] == entry;
            assert(order.contains(i));
            let a = choose|a: int| 0 <= a < order.len() && order[a] == i;
            assert(out[a] == entry);
        }
        if out.contains(entry) {
            let a = choose|a: int| 0 <= a < out.len() && out[a] == entry;
            assert(list[order[a]] == entry);
        }
    }
}

} // verus!
