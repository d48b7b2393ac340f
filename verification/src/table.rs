//! A map from names to values, kept as a list of bindings in the order in
//! which they were made. A later binding of a name hides every earlier one.

use vstd::prelude::*;

verus! {

/// A finite map from names to values.
pub struct NameMap<V> {
    entries: Vec<(String, V)>,
}

/// The map that a list of bindings stands for: each binding in turn
/// overwrites what was bound under its name before.
spec fn bindings_map<V>(entries: Seq<(String, V)>) -> Map<Seq<char>, V>
    decreases entries.len(),
{
    if entries.len() == 0 {
        Map::empty()
    } else {
        bindings_map(entries.drop_last()).insert(entries.last().0@, entries.last().1)
    }
}

/// A name that no binding from `from` on mentions is looked up in the
/// bindings before `from`.
proof fn lemma_lookup_skips<V>(entries: Seq<(String, V)>, from: int, name: Seq<char>)
    requires
        0 <= from <= entries.len(),
        forall|j: int| from <= j < entries.len() ==> (#[trigger] entries[j]).0@ != name,
    ensures
        bindings_map(entries).contains_key(name) == bindings_map(entries.take(from)).contains_key(
            name,
        ),
        bindings_map(entries).contains_key(name) ==> bindings_map(entries)[name] == bindings_map(
            entries.take(from),
        )[name],
    decreases entries.len() - from,
{
    if from == entries.len() {
        assert(entries.take(from) =~= entries);
    } else {
        assert(entries.drop_last().take(from) =~= entries.take(from));
        lemma_lookup_skips(entries.drop_last(), from, name);
    }
}

/// Lists that agree name by name and value by value stand for one map.
proof fn lemma_same_bindings<V>(a: Seq<(String, V)>, b: Seq<(String, V)>)
    requires
        a.len() == b.len(),
        forall|j: int| 0 <= j < a.len() ==> (#[trigger] a[j]).0@ == b[j].0@ && a[j].1 == b[j].1,
    ensures
        bindings_map(a) == bindings_map(b),
    decreases a.len(),
{
    if a.len() > 0 {
        lemma_same_bindings(a.drop_last(), b.drop_last());
    }
}

impl<V> View for NameMap<V> {
    type V = Map<Seq<char>, V>;

    closed spec fn view(&self) -> Map<Seq<char>, V> {
        bindings_map(self.entries@)
    }
}

impl<V: Copy> NameMap<V> {
    /// The empty map.
    pub fn new() -> (res: Self)
        ensures
            res@ == Map::<Seq<char>, V>::empty(),
    {
        NameMap { entries: Vec::new() }
    }

    /// Binds `name` to `value`, whatever it was bound to before.
    pub fn insert(&mut self, name: String, value: V)
        ensures
            final(self)@ == old(self)@.insert(name@, value),
    {
        self.entries.push((name, value));
        assert(self.entries@.drop_last() =~= old(self).entries@);
    }

    /// The value bound to `name`, if there is one.
    pub fn get(&self, name: &String) -> (res: Option<V>)
        ensures
            res == if self@.contains_key(name@) {
                Some(self@[name@])
            } else {
                None
            },
    {
        let mut i: usize = self.entries.len();
        while i > 0
            invariant
                i <= self.entries.len(),
                forall|j: int| i <= j < self.entries.len() ==> (#[trigger] self.entries@[j]).0@ != name@,
            decreases i,
        {
            i -= 1;
            if self.entries[i].0 == *name {
                proof {
                    lemma_lookup_skips(self.entries@, i + 1, name@);
                    assert(self.entries@.take(i + 1).drop_last() =~= self.entries@.take(i as int));
                }
                return Some(self.entries[i].1);
            }
        }
        proof {
            lemma_lookup_skips(self.entries@, 0, name@);
        }
        None
    }

    /// Whether `name` is bound.
    pub fn contains_key(&self, name: &String) -> (res: bool)
        ensures
            res == self@.contains_key(name@),
    {
        self.get(name).is_some()
    }
}

impl<V: Copy> Clone for NameMap<V> {
    /// An independent copy: what is bound in one afterwards is not bound in
    /// the other.
    fn clone(&self) -> (res: Self)
        ensures
            res@ == self@,
    {
        let mut entries: Vec<(String, V)> = Vec::new();
        let mut i: usize = 0;
        while i < self.entries.len()
            invariant
                i <= self.entries.len(),
                entries@.len() == i,
                forall|j: int|
                    0 <= j < i ==> (#[trigger] entries@[j]).0@ == self.entries@[j].0@
                        && entries@[j].1 == self.entries@[j].1,
            decreases self.entries.len() - i,
        {
            entries.push((self.entries[i].0.clone(), self.entries[i].1));
            i += 1;
        }
        proof {
            lemma_same_bindings(entries@, self.entries@);
        }
        NameMap { entries }
    }
}

} // verus!
