//! The variable map a worker owns: names bound to string values.
//!
//! Each worker holds its own independent copy; values extracted from
//! responses are merged in with later bindings overwriting earlier ones.

use vstd::prelude::*;

verus! {

/// The map described by a sequence of bindings, later bindings winning.
pub open spec fn bindings_map(s: Seq<(String, String)>) -> Map<Seq<char>, Seq<char>>
    decreases s.len(),
{
    if s.len() == 0 {
        Map::empty()
    } else {
        bindings_map(s.drop_last()).insert(s.last().0@, s.last().1@)
    }
}

/// A mapping from variable names to values, owned by one worker.
#[derive(Clone, Debug)]
pub struct VarMap {
    bindings: Vec<(String, String)>,
}

impl View for VarMap {
    type V = Map<Seq<char>, Seq<char>>;

    closed spec fn view(&self) -> Map<Seq<char>, Seq<char>> {
        bindings_map(self.bindings@)
    }
}

/// In the map of `s`, a key is present exactly when some binding carries it.
proof fn lemma_bindings_map_contains(s: Seq<(String, String)>, k: Seq<char>)
    ensures
        bindings_map(s).contains_key(k) <==> exists|i: int| 0 <= i < s.len() && s[i].0@ == k,
    decreases s.len(),
{
    if s.len() > 0 {
        let d = s.drop_last();
        lemma_bindings_map_contains(d, k);
        assert(forall|i: int| 0 <= i < d.len() ==> d[i] == s[i]);
        if s.last().0@ == k {
            assert(s[s.len() - 1].0@ == k);
        } else {
            if bindings_map(s).contains_key(k) {
                let i = choose|i: int| 0 <= i < d.len() && d[i].0@ == k;
                assert(s[i].0@ == k);
            }
            if exists|i: int| 0 <= i < s.len() && s[i].0@ == k {
                let i = choose|i: int| 0 <= i < s.len() && s[i].0@ == k;
                assert(i < s.len() - 1);
                assert(d[i].0@ == k);
            }
        }
    }
}

/// The value the map of `s` gives a key is that of the last binding carrying it.
proof fn lemma_bindings_map_value(s: Seq<(String, String)>, k: Seq<char>, i: int)
    requires
        0 <= i < s.len(),
        s[i].0@ == k,
        forall|j: int| i < j < s.len() ==> s[j].0@ != k,
    ensures
        bindings_map(s).contains_key(k),
        bindings_map(s)[k] == s[i].1@,
    decreases s.len(),
{
    if i == s.len() - 1 {
    } else {
        let d = s.drop_last();
        assert(d[i] == s[i]);
        lemma_bindings_map_value(d, k, i);
        assert(s.last().0@ != k);
    }
}

impl VarMap {
    /// An empty variable map.
    pub fn new() -> (r: VarMap)
        ensures
            r@ == Map::<Seq<char>, Seq<char>>::empty(),
    {
        VarMap { bindings: Vec::new() }
    }

    /// The value bound to `name`, if any.
    pub fn get<'a>(&'a self, name: &String) -> (r: Option<&'a String>)
        ensures
            match r {
                Some(v) => self@.contains_key(name@) && v@ == self@[name@],
                None => !self@.contains_key(name@),
            },
    {
        proof {
            lemma_bindings_map_contains(self.bindings@, name@);
        }
        let mut i: usize = self.bindings.len();
        while i > 0
            invariant
                i <= self.bindings.len(),
                forall|j: int| i <= j < self.bindings@.len() ==> self.bindings@[j].0@ != name@,
            decreases i,
        {
            i = i - 1;
            if self.bindings[i].0 == *name {
                proof {
                    lemma_bindings_map_value(self.bindings@, name@, i as int);
                }
                return Some(&self.bindings[i].1);
            }
        }
        None
    }

    /// Binds `name` to `value`, overwriting any earlier binding of `name`.
    pub fn insert(&mut self, name: String, value: String)
        ensures
            final(self)@ == old(self)@.insert(name@, value@),
    {
        self.bindings.push((name, value));
        proof {
            assert(self.bindings@.drop_last() == old(self).bindings@);
        }
    }
}

} // verus!
