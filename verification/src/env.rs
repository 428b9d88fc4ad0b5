//! `ParamMap`: parameter name to integer value.
use vstd::prelude::*;
use crate::text::owned;

verus! {

/// The map that a list of bindings denotes: a later binding of a name
/// replaces an earlier one.
pub open spec fn bindings_map(s: Seq<(String, i64)>) -> Map<Seq<char>, i64>
    decreases s.len(),
{
    if s.len() == 0 {
        Map::empty()
    } else {
        bindings_map(s.drop_last()).insert(s.last().0@, s.last().1)
    }
}

/// Parameter name to value, as a list of bindings with distinct names.
#[derive(Debug, Clone)]
pub struct ParamMap {
    entries: Vec<(String, i64)>,
}

impl View for ParamMap {
    type V = Map<Seq<char>, i64>;

    closed spec fn view(&self) -> Map<Seq<char>, i64> {
        bindings_map(self.entries@)
    }
}

proof fn lemma_bindings_absent(s: Seq<(String, i64)>, k: Seq<char>)
    requires
        forall|j: int| 0 <= j < s.len() ==> (#[trigger] s[j]).0@ != k,
    ensures
        !bindings_map(s).contains_key(k),
    decreases s.len(),
{
    if s.len() > 0 {
        lemma_bindings_absent(s.drop_last(), k);
    }
}

/// The last binding of `k` decides its value.
proof fn lemma_bindings_last(s: Seq<(String, i64)>, i: int, k: Seq<char>)
    requires
        0 <= i < s.len(),
        s[i].0@ == k,
        forall|j: int| i < j < s.len() ==> (#[trigger] s[j]).0@ != k,
    ensures
        bindings_map(s).contains_key(k),
        bindings_map(s)[k] == s[i].1,
    decreases s.len(),
{
    if i < s.len() - 1 {
        lemma_bindings_last(s.drop_last(), i, k);
    }
}

proof fn lemma_bindings_update(s: Seq<(String, i64)>, i: int, b: (String, i64))
    requires
        0 <= i < s.len(),
        s[i].0@ == b.0@,
        forall|j: int| i < j < s.len() ==> (#[trigger] s[j]).0@ != b.0@,
    ensures
        bindings_map(s.update(i, b)) == bindings_map(s).insert(b.0@, b.1),
    decreases s.len(),
{
    let t = s.update(i, b);
    if i == s.len() - 1 {
        assert(t.drop_last() =~= s.drop_last());
        if s.len() > 1 {
        }
        assert(bindings_map(t) =~= bindings_map(s).insert(b.0@, b.1));
    } else {
        lemma_bindings_update(s.drop_last(), i, b);
        assert(t.drop_last() =~= s.drop_last().update(i, b));
        assert(bindings_map(t) =~= bindings_map(s).insert(b.0@, b.1));
    }
}

impl ParamMap {
    /// An empty map.
    pub fn new() -> (r: ParamMap)
        ensures
            r@ == Map::<Seq<char>, i64>::empty(),
    {
        ParamMap { entries: Vec::new() }
    }

    /// Index of the binding of `k`, searching from the latest one.
    fn position(&self, k: &String) -> (r: Option<usize>)
        ensures
            match r {
                Some(i) => i < self.entries.len() && self.entries@[i as int].0@ == k@
                    && forall|j: int| i < j < self.entries.len() ==> (#[trigger] self.entries@[j]).0@ != k@,
                None => forall|j: int| 0 <= j < self.entries.len() ==> (#[trigger] self.entries@[j]).0@ != k@,
            },
    {
        let mut i = self.entries.len();
        while i > 0
            invariant
                i <= self.entries.len(),
                forall|j: int| i <= j < self.entries.len() ==> (#[trigger] self.entries@[j]).0@ != k@,
            decreases i,
        {
            if self.entries[i - 1].0 == *k {
                return Some(i - 1);
            }
            i -= 1;
        }
        None
    }

    /// The value bound to `name`, if any.
    pub fn get(&self, name: &str) -> (r: Option<i64>)
        ensures
            r == (if self@.contains_key(name@) { Some(self@[name@]) } else { None }),
    {
        let k = owned(name);
        match self.position(&k) {
            Some(i) => {
                proof {
                    lemma_bindings_last(self.entries@, i as int, k@);
                }
                Some(self.entries[i].1)
            },
            None => {
                proof {
                    lemma_bindings_absent(self.entries@, k@);
                }
                None
            },
        }
    }

    /// Binds `name` to `value`, replacing an earlier binding of the name.
    pub fn insert(&mut self, name: String, value: i64)
        ensures
            final(self)@ == old(self)@.insert(name@, value),
    {
        match self.position(&name) {
            Some(i) => {
                proof {
                    lemma_bindings_update(self.entries@, i as int, (name, value));
                }
                self.entries.set(i, (name, value));
            },
            None => {
                let ghost s = self.entries@;
                self.entries.push((name, value));
                proof {
                    assert(self.entries@.drop_last() =~= s);
                }
            },
        }
    }
}

} // verus!
