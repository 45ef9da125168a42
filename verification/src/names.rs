//! A set of names, kept in ascending order.

use vstd::prelude::*;
use crate::order::{
    comes_before, is_ascending, lemma_ascending_is_unique, lemma_precedes_connected,
    lemma_precedes_irreflexive, lemma_precedes_transitive, precedes, texts,
};

verus! {

/// Whether `at` parts the sequence in two: the texts that come before `name`,
/// and behind them those that do not.
pub(crate) open spec fn is_lower_bound(s: Seq<Seq<char>>, name: Seq<char>, at: int) -> bool {
    &&& 0 <= at <= s.len()
    &&& forall|i: int| 0 <= i < at ==> precedes(#[trigger] s[i], name)
    &&& forall|i: int| at <= i < s.len() ==> !precedes(#[trigger] s[i], name)
}

/// In an ascending sequence `name` can stand at its lower bound only. Where
/// it does not stand there, it comes before everything from there on.
pub(crate) proof fn lemma_lower_bound(s: Seq<Seq<char>>, name: Seq<char>, at: int)
    requires
        is_ascending(s),
        is_lower_bound(s, name, at),
    ensures
        s.contains(name) <==> (at < s.len() && s[at] == name),
        !s.contains(name) ==> forall|i: int| at <= i < s.len() ==> precedes(name, #[trigger] s[i]),
{
    lemma_precedes_irreflexive(name);
    if s.contains(name) {
        let k = choose|k: int| 0 <= k < s.len() && s[k] == name;
        if k < at {
            assert(precedes(s[k], name));
        } else if k > at {
            assert(precedes(s[at], s[k]));
            assert(!precedes(s[at], name));
        }
    } else {
        assert forall|i: int| at <= i < s.len() implies precedes(name, #[trigger] s[i]) by {
            assert(!precedes(s[i], name));
            assert(s[i] != name);
            lemma_precedes_connected(name, s[i]);
        }
    }
}

/// In an ascending sequence, the first position whose text does not come
/// before `name`; the sequence's length if every text does.
pub(crate) fn lower_bound(names: &Vec<String>, name: &String) -> (at: usize)
    requires
        is_ascending(texts(names@)),
    ensures
        is_lower_bound(texts(names@), name@, at as int),
{
    let ghost s = texts(names@);
    let mut low: usize = 0;
    let mut high: usize = names.len();
    while low < high
        invariant
            s == texts(names@),
            is_ascending(s),
            0 <= low <= high <= names.len(),
            forall|i: int| 0 <= i < low ==> precedes(#[trigger] s[i], name@),
            forall|i: int| high <= i < s.len() ==> !precedes(#[trigger] s[i], name@),
        decreases high - low,
    {
        let mid: usize = low + (high - low) / 2;
        if comes_before(names[mid].as_str(), name.as_str()) {
            proof {
                assert forall|i: int| 0 <= i < mid + 1 implies precedes(
                    #[trigger] s[i],
                    name@,
                ) by {
                    if i < mid {
                        assert(precedes(s[i], s[mid as int]));
                        lemma_precedes_transitive(s[i], s[mid as int], name@);
                    }
                }
            }
            low = mid + 1;
        } else {
            proof {
                assert forall|i: int| mid <= i < s.len() implies !precedes(
                    #[trigger] s[i],
                    name@,
                ) by {
                    if mid < i && precedes(s[i], name@) {
                        assert(precedes(s[mid as int], s[i]));
                        lemma_precedes_transitive(s[mid as int], s[i], name@);
                    }
                }
            }
            high = mid;
        }
    }
    low
}

/// An ascending sequence stays ascending when a text is put in where
/// everything before it comes before it and it comes before everything after.
pub(crate) proof fn lemma_insert_keeps_ascending(s: Seq<Seq<char>>, at: int, name: Seq<char>)
    requires
        is_ascending(s),
        0 <= at <= s.len(),
        forall|i: int| 0 <= i < at ==> precedes(#[trigger] s[i], name),
        forall|i: int| at <= i < s.len() ==> precedes(name, #[trigger] s[i]),
    ensures
        is_ascending(s.insert(at, name)),
        s.insert(at, name).to_set() == s.to_set().insert(name),
{
    let t = s.insert(at, name);
    assert forall|i: int, j: int| 0 <= i < j < t.len() implies precedes(
        #[trigger] t[i],
        #[trigger] t[j],
    ) by {
        if j < at {
            assert(precedes(s[i], s[j]));
        } else if j == at {
            assert(precedes(s[i], name));
        } else if i < at {
            assert(precedes(s[i], s[j - 1]));
        } else if i == at {
            assert(precedes(name, s[j - 1]));
        } else {
            assert(precedes(s[i - 1], s[j - 1]));
        }
    }
    assert forall|x: Seq<char>| t.to_set().contains(x) == s.to_set().insert(name).contains(
        x,
    ) by {
        if t.contains(x) {
            let k = choose|k: int| 0 <= k < t.len() && t[k] == x;
            if k < at {
                assert(s[k] == x);
            } else if k > at {
                assert(s[k - 1] == x);
            }
        }
        if s.contains(x) {
            let k = choose|k: int| 0 <= k < s.len() && s[k] == x;
            if k < at {
                assert(t[k] == x);
            } else {
                assert(t[k + 1] == x);
            }
        }
        if x == name {
            assert(t[at] == x);
        }
    }
    assert(t.to_set() =~= s.to_set().insert(name));
}

/// A set of names. Each name is held once, and they are kept in ascending
/// order.
pub struct NameSet {
    names: Vec<String>,
}

impl View for NameSet {
    type V = Set<Seq<char>>;

    /// The names that the set holds.
    closed spec fn view(&self) -> Set<Seq<char>> {
        texts(self.names@).to_set()
    }
}

impl NameSet {
    #[verifier::type_invariant]
    spec fn ascending(self) -> bool {
        is_ascending(texts(self.names@))
    }

    /// The empty set.
    pub fn new() -> (set: NameSet)
        ensures
            set@ == Set::<Seq<char>>::empty(),
    {
        let set = NameSet { names: Vec::new() };
        assert(texts(set.names@) =~= Seq::<Seq<char>>::empty());
        assert(set@ =~= Set::<Seq<char>>::empty());
        set
    }

    /// Adds a name to the set. Returns whether the set did not hold it
    /// before; if it did, the set stays as it was.
    pub fn insert(&mut self, name: String) -> (added: bool)
        ensures
            final(self)@ == old(self)@.insert(name@),
            added == !old(self)@.contains(name@),
    {
        proof {
            use_type_invariant(&*self);
        }
        let ghost s = texts(self.names@);
        let ghost text = name@;
        let at = lower_bound(&self.names, &name);
        proof {
            lemma_lower_bound(s, text, at as int);
        }
        if at < self.names.len() && self.names[at] == name {
            assert(s[at as int] == text);
            assert(s.to_set().insert(text) =~= s.to_set());
            return false;
        }
        proof {
            lemma_insert_keeps_ascending(s, at as int, text);
        }
        let mut names: Vec<String> = Vec::new();
        std::mem::swap(&mut self.names, &mut names);
        names.insert(at, name);
        assert(texts(names@) =~= s.insert(at as int, text));
        self.names = names;
        true
    }

    /// Whether the set holds `name`.
    pub fn contains(&self, name: &String) -> (held: bool)
        ensures
            held == self@.contains(name@),
    {
        proof {
            use_type_invariant(self);
        }
        let at = lower_bound(&self.names, name);
        proof {
            lemma_lower_bound(texts(self.names@), name@, at as int);
        }
        at < self.names.len() && self.names[at] == *name
    }

    /// How many names the set holds.
    pub fn len(&self) -> (n: usize)
        ensures
            n == self@.len(),
    {
        proof {
            use_type_invariant(self);
            lemma_ascending_is_unique(texts(self.names@));
            texts(self.names@).unique_seq_to_set();
        }
        self.names.len()
    }

    /// The names of the set, in ascending order.
    pub fn names(&self) -> (names: &Vec<String>)
        ensures
            texts(names@).to_set() == self@,
            is_ascending(texts(names@)),
    {
        proof {
            use_type_invariant(self);
        }
        &self.names
    }
}

} // verus!
