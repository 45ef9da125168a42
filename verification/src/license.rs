//! The licenses that have been seen, each with its weight.
//!
//! Weights are whole numbers. A license that a manifest declares weighs one
//! unit, however many manifests declare it.

use vstd::prelude::*;
use vstd::std_specs::iter::IteratorSpec;
use crate::names::{lemma_insert_keeps_ascending, lemma_lower_bound, lower_bound};
use crate::order::{is_ascending, lemma_ascending_is_unique, texts};

verus! {

/// The weight of a license that a manifest declares: one whole unit.
pub const OBSERVED: u32 = 1;

/// The weights once every identifier of `seen` has been observed: each of
/// them stands at `OBSERVED`, whatever it stood at before, and the others
/// stand where they stood.
pub open spec fn with_observed(weights: Map<Seq<char>, u32>, seen: Set<Seq<char>>) -> Map<
    Seq<char>,
    u32,
> {
    Map::new(
        |id: Seq<char>| weights.dom().contains(id) || seen.contains(id),
        |id: Seq<char>|
            if seen.contains(id) {
                OBSERVED
            } else {
                weights[id]
            },
    )
}

/// Observing nothing changes nothing.
pub proof fn lemma_observed_nothing(weights: Map<Seq<char>, u32>)
    ensures
        with_observed(weights, Set::empty()) == weights,
{
    assert(with_observed(weights, Set::empty()) =~= weights);
}

/// Observing one identifier more is an insertion at weight `OBSERVED`.
pub proof fn lemma_observed_one_more(
    weights: Map<Seq<char>, u32>,
    seen: Set<Seq<char>>,
    id: Seq<char>,
)
    ensures
        with_observed(weights, seen.insert(id)) == with_observed(weights, seen).insert(
            id,
            OBSERVED,
        ),
{
    assert(with_observed(weights, seen.insert(id)) =~= with_observed(weights, seen).insert(
        id,
        OBSERVED,
    ));
}

/// A license observed in two sources weighs what a license observed in one
/// weighs: observations do not add up.
pub proof fn lemma_observed_twice(
    weights: Map<Seq<char>, u32>,
    first: Set<Seq<char>>,
    second: Set<Seq<char>>,
    id: Seq<char>,
)
    requires
        first.contains(id),
        second.contains(id),
    ensures
        with_observed(with_observed(weights, first), second)[id] == OBSERVED,
        with_observed(with_observed(weights, first), second) == with_observed(
            weights,
            first.union(second),
        ),
        with_observed(with_observed(weights, first), first) == with_observed(weights, first),
{
    assert(with_observed(with_observed(weights, first), second) =~= with_observed(
        weights,
        first.union(second),
    ));
    assert(with_observed(with_observed(weights, first), first) =~= with_observed(weights, first));
}

/// The position at which a sequence holds a text that it holds once.
spec fn position_of(ids: Seq<Seq<char>>, id: Seq<char>) -> int {
    choose|i: int| 0 <= i < ids.len() && ids[i] == id
}

/// In a sequence that holds nothing twice, a text is found where it stands.
proof fn lemma_position_of(ids: Seq<Seq<char>>, at: int)
    requires
        ids.no_duplicates(),
        0 <= at < ids.len(),
    ensures
        position_of(ids, ids[at]) == at,
{
}

/// A map from license identifiers to weights. Writing an identifier that is
/// already there replaces its weight.
pub struct LicenseWeights {
    ids: Vec<String>,
    weights: Vec<u32>,
}

impl View for LicenseWeights {
    type V = Map<Seq<char>, u32>;

    /// The weight of each identifier that the map holds.
    closed spec fn view(&self) -> Map<Seq<char>, u32> {
        let ids = texts(self.ids@);
        Map::new(
            |id: Seq<char>| ids.contains(id),
            |id: Seq<char>| self.weights@[position_of(ids, id)],
        )
    }
}

impl LicenseWeights {
    #[verifier::type_invariant]
    spec fn paired_and_ascending(self) -> bool {
        self.ids@.len() == self.weights@.len() && is_ascending(texts(self.ids@))
    }

    /// The empty map.
    pub fn new() -> (map: LicenseWeights)
        ensures
            map@ == Map::<Seq<char>, u32>::empty(),
    {
        let map = LicenseWeights { ids: Vec::new(), weights: Vec::new() };
        assert(map@ =~= Map::<Seq<char>, u32>::empty());
        map
    }

    /// Gives `id` the weight `weight`, whether or not it had one.
    pub fn insert(&mut self, id: String, weight: u32)
        ensures
            final(self)@ == old(self)@.insert(id@, weight),
    {
        proof {
            use_type_invariant(&*self);
        }
        let ghost before = *self;
        let ghost s = texts(self.ids@);
        let ghost text = id@;
        proof {
            lemma_ascending_is_unique(s);
        }
        let at = lower_bound(&self.ids, &id);
        proof {
            lemma_lower_bound(s, text, at as int);
        }
        let found = at < self.ids.len() && self.ids[at] == id;
        let mut taken = LicenseWeights::new();
        std::mem::swap(self, &mut taken);
        let LicenseWeights { mut ids, mut weights } = taken;
        if found {
            weights.set(at, weight);
            proof {
                assert forall|k: Seq<char>| s.contains(k) implies #[trigger] weights@[position_of(
                    s,
                    k,
                )] == before@.insert(text, weight)[k] by {
                    let j = choose|j: int| 0 <= j < s.len() && s[j] == k;
                    lemma_position_of(s, j);
                    lemma_position_of(s, at as int);
                }
            }
        } else {
            proof {
                lemma_insert_keeps_ascending(s, at as int, text);
                lemma_ascending_is_unique(s.insert(at as int, text));
            }
            ids.insert(at, id);
            weights.insert(at, weight);
            proof {
                let t = s.insert(at as int, text);
                assert(texts(ids@) =~= t);
                assert forall|k: Seq<char>| t.contains(k) == (s.contains(k) || k == text) by {
                    assert(t.to_set().contains(k) == s.to_set().insert(text).contains(k));
                }
                assert forall|k: Seq<char>| t.contains(k) implies #[trigger] weights@[position_of(
                    t,
                    k,
                )] == before@.insert(text, weight)[k] by {
                    let j = choose|j: int| 0 <= j < t.len() && t[j] == k;
                    lemma_position_of(t, j);
                    if j < at {
                        assert(s[j] == k);
                        lemma_position_of(s, j);
                    } else if j > at {
                        assert(s[j - 1] == k);
                        lemma_position_of(s, j - 1);
                    }
                }
            }
        }
        *self = LicenseWeights { ids, weights };
        assert(self@ =~= before@.insert(text, weight));
    }

    /// The weight of `id`, if it has one.
    pub fn get(&self, id: &String) -> (weight: Option<u32>)
        ensures
            weight == (if self@.dom().contains(id@) {
                Some(self@[id@])
            } else {
                None
            }),
    {
        proof {
            use_type_invariant(self);
        }
        let ghost s = texts(self.ids@);
        let at = lower_bound(&self.ids, id);
        proof {
            lemma_lower_bound(s, id@, at as int);
            lemma_ascending_is_unique(s);
        }
        if at < self.ids.len() && self.ids[at] == *id {
            proof {
                lemma_position_of(s, at as int);
            }
            Some(self.weights[at])
        } else {
            None
        }
    }

    /// The identifiers that have a weight, in ascending order.
    pub fn identifiers(&self) -> (ids: &Vec<String>)
        ensures
            texts(ids@).to_set() == self@.dom(),
            is_ascending(texts(ids@)),
    {
        proof {
            use_type_invariant(self);
            assert(texts(self.ids@).to_set() =~= self@.dom());
        }
        &self.ids
    }

    /// Records that each of `seen` was observed: every one of them gets the
    /// weight `OBSERVED`.
    pub fn observe(&mut self, seen: Vec<String>)
        ensures
            final(self)@ == with_observed(old(self)@, texts(seen@).to_set()),
    {
        let ghost all = texts(seen@);
        let ghost before = self@;
        proof {
            lemma_observed_nothing(before);
            assert(all.take(0).to_set() =~= Set::empty());
        }
        for id in it: seen
            invariant
                all == texts(it.seq()),
                self@ == with_observed(before, all.take(it.index()).to_set()),
        {
            proof {
                let at = it.index();
                assert(id@ == all[at]);
                assert(all.take(at + 1) =~= all.take(at).push(all[at]));
                all.take(at).lemma_push_to_set_commute(all[at]);
                lemma_observed_one_more(before, all.take(at).to_set(), all[at]);
            }
            self.insert(id, OBSERVED);
        }
        assert(all.take(all.len() as int) =~= all);
    }
}

} // verus!
