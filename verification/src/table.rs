//! Name-keyed tables and name sets, the lookup structures of the index.

use vstd::prelude::*;

use crate::text::same_text;

verus! {

/// The map that a sequence of bindings describes, later bindings of a
/// name replacing earlier ones.
pub open spec fn map_of<V>(s: Seq<(Seq<char>, V)>) -> Map<Seq<char>, V>
    decreases s.len(),
{
    if s.len() == 0 {
        Map::empty()
    } else {
        map_of(s.drop_last()).insert(s.last().0, s.last().1)
    }
}

/// `map_of` binds a name exactly when some binding names it, and to the
/// value of the last such binding.
pub proof fn lemma_map_of_last<V>(s: Seq<(Seq<char>, V)>, j: int)
    requires
        0 <= j < s.len(),
        forall|l: int| j < l < s.len() ==> s[l].0 != s[j].0,
    ensures
        map_of(s).contains_key(s[j].0),
        map_of(s)[s[j].0] == s[j].1,
    decreases s.len(),
{
    if j < s.len() - 1 {
        lemma_map_of_last(s.drop_last(), j);
    }
}

pub proof fn lemma_map_of_absent<V>(s: Seq<(Seq<char>, V)>, k: Seq<char>)
    requires
        forall|l: int| 0 <= l < s.len() ==> s[l].0 != k,
    ensures
        !map_of(s).contains_key(k),
    decreases s.len(),
{
    if s.len() > 0 {
        lemma_map_of_absent(s.drop_last(), k);
    }
}

/// The binding at `i` is the last of its name: the one the map keeps.
pub open spec fn live<V>(b: Seq<(Seq<char>, V)>, i: int) -> bool {
    forall|j: int| i < j < b.len() ==> b[j].0 != b[i].0
}

/// A name bound in the map has a live binding.
pub proof fn lemma_bound_name_has_live<V>(b: Seq<(Seq<char>, V)>, k: Seq<char>)
    requires
        map_of(b).contains_key(k),
    ensures
        exists|i: int| 0 <= i < b.len() && b[i].0 == k && live(b, i),
    decreases b.len(),
{
    if b.len() == 0 {
        assert(!map_of(b).contains_key(k));
    } else if b.last().0 == k {
        assert(live(b, b.len() - 1));
        assert(0 <= b.len() - 1 < b.len() && b[b.len() - 1].0 == k && live(b, b.len() - 1));
    } else {
        lemma_bound_name_has_live(b.drop_last(), k);
        let i = choose|i: int| 0 <= i < b.drop_last().len() && b.drop_last()[i].0 == k && live(b.drop_last(), i);
        assert(b[i].0 == k);
        assert forall|j: int| i < j < b.len() implies b[j].0 != b[i].0 by {
            if j < b.len() - 1 {
                assert(b.drop_last()[j] == b[j]);
            }
        }
        assert(0 <= i < b.len() && b[i].0 == k && live(b, i));
    }
}

/// A map from names to values, kept as the sequence of its bindings.
pub struct NameTable<V> {
    entries: Vec<(String, V)>,
}

impl<V> NameTable<V> {
    /// The bindings in the order they were made.
    pub closed spec fn bindings(&self) -> Seq<(Seq<char>, V)> {
        Seq::new(self.entries@.len(), |i: int| (self.entries@[i].0@, self.entries@[i].1))
    }
}

impl<V> View for NameTable<V> {
    type V = Map<Seq<char>, V>;

    open spec fn view(&self) -> Map<Seq<char>, V> {
        map_of(self.bindings())
    }
}

impl<V: Copy> NameTable<V> {
    pub fn new() -> (t: Self)
        ensures
            t.bindings() == Seq::<(Seq<char>, V)>::empty(),
    {
        let t = NameTable { entries: Vec::new() };
        assert(t.bindings() =~= Seq::<(Seq<char>, V)>::empty());
        t
    }

    /// Binds `key` to `value`, replacing an earlier binding of `key`.
    pub fn insert(&mut self, key: String, value: V)
        ensures
            final(self).bindings() == old(self).bindings().push((key@, value)),
    {
        let ghost k = key@;
        self.entries.push((key, value));
        assert(self.bindings() =~= old(self).bindings().push((k, value)));
    }

    pub fn len(&self) -> (n: usize)
        ensures
            n == self.bindings().len(),
    {
        self.entries.len()
    }

    pub fn key_at(&self, i: usize) -> (k: &String)
        requires
            i < self.bindings().len(),
        ensures
            k@ == self.bindings()[i as int].0,
    {
        &self.entries[i].0
    }

    pub fn value_at(&self, i: usize) -> (v: V)
        requires
            i < self.bindings().len(),
        ensures
            v == self.bindings()[i as int].1,
    {
        self.entries[i].1
    }

    /// Whether the binding at `i` is the last of its name.
    pub fn is_live(&self, i: usize) -> (r: bool)
        requires
            i < self.bindings().len(),
        ensures
            r == live(self.bindings(), i as int),
    {
        let n = self.entries.len();
        let mut j = i + 1;
        while j < n
            invariant
                n == self.bindings().len(),
                i < j <= n,
                forall|l: int| i < l < j ==> self.bindings()[l].0 != self.bindings()[i as int].0,
            decreases n - j,
        {
            if same_text(self.entries[j].0.as_str(), self.entries[i].0.as_str()) {
                assert(self.bindings()[j as int].0 == self.bindings()[i as int].0);
                return false;
            }
            j = j + 1;
        }
        true
    }

    /// Each bound name once, with the value the map gives it.
    pub fn entries_by_name(&self) -> (r: Vec<(String, V)>)
        ensures
            forall|a: int, c: int| 0 <= a < c < r@.len() ==> (#[trigger] r@[a]).0@ != (#[trigger] r@[c]).0@,
            forall|a: int| 0 <= a < r@.len() ==> self@.contains_key((#[trigger] r@[a]).0@) && self@[r@[a].0@] == r@[a].1,
            forall|k: Seq<char>| #[trigger] self@.contains_key(k) ==> exists|a: int| 0 <= a < r@.len() && (#[trigger] r@[a]).0@ == k,
    {
        let ghost b = self.bindings();
        let mut r: Vec<(String, V)> = Vec::new();
        let ghost mut src: Seq<int> = seq![];
        let n = self.entries.len();
        for i in 0..n
            invariant
                n == b.len(),
                b == self.bindings(),
                src.len() == r@.len(),
                forall|a: int| 0 <= a < src.len() ==> 0 <= #[trigger] src[a] < i && live(b, src[a]) && r@[a].0@ == b[src[a]].0
                    && r@[a].1 == b[src[a]].1,
                forall|a: int, c: int| 0 <= a < c < src.len() ==> #[trigger] src[a] < #[trigger] src[c],
                forall|j: int| 0 <= j < i && live(b, j) ==> exists|a: int| 0 <= a < r@.len() && (#[trigger] r@[a]).0@ == b[j].0,
        {
            if self.is_live(i) {
                let ghost before = r@;
                r.push((self.entries[i].0.clone(), self.entries[i].1));
                proof {
                    src = src.push(i as int);
                    assert(r@[r@.len() - 1].0@ == b[i as int].0);
                    assert forall|j: int| 0 <= j < i + 1 && live(b, j) implies exists|a: int| 0 <= a < r@.len() && (#[trigger] r@[a]).0@ == b[j].0 by {
                        if j < i {
                            let a = choose|a: int| 0 <= a < before.len() && (#[trigger] before[a]).0@ == b[j].0;
                            assert(r@[a] == before[a]);
                        } else {
                            assert(r@[r@.len() - 1].0@ == b[j].0);
                        }
                    }
                }
            }
        }
        proof {
            assert forall|a: int, c: int| 0 <= a < c < r@.len() implies (#[trigger] r@[a]).0@ != (#[trigger] r@[c]).0@ by {
                assert(src[a] < src[c]);
            }
            assert forall|a: int| 0 <= a < r@.len() implies self@.contains_key((#[trigger] r@[a]).0@) && self@[r@[a].0@] == r@[a].1 by {
                lemma_map_of_last(b, src[a]);
            }
            assert forall|k: Seq<char>| #[trigger] self@.contains_key(k) implies exists|a: int| 0 <= a < r@.len() && (#[trigger] r@[a]).0@ == k by {
                lemma_bound_name_has_live(b, k);
                let j = choose|j: int| 0 <= j < b.len() && b[j].0 == k && live(b, j);
            }
        }
        r
    }

    /// The value bound to `key`, if any.
    pub fn get(&self, key: &str) -> (r: Option<V>)
        ensures
            r == (if self@.contains_key(key@) { Some(self@[key@]) } else { None::<V> }),
    {
        let n = self.entries.len();
        let mut i = n;
        while i > 0
            invariant
                i <= n,
                n == self.bindings().len(),
                forall|l: int| i <= l < n ==> self.bindings()[l].0 != key@,
            decreases i,
        {
            i = i - 1;
            if same_text(self.entries[i].0.as_str(), key) {
                proof {
                    lemma_map_of_last(self.bindings(), i as int);
                }
                return Some(self.entries[i].1);
            }
        }
        proof {
            lemma_map_of_absent(self.bindings(), key@);
        }
        None
    }

    pub fn contains_key(&self, key: &str) -> (r: bool)
        ensures
            r == self@.contains_key(key@),
    {
        self.get(key).is_some()
    }
}

/// A set of names, kept as the sequence of its members in the order they
/// were added.
pub struct NameSet {
    names: Vec<String>,
}

impl NameSet {
    pub closed spec fn members(&self) -> Seq<Seq<char>> {
        Seq::new(self.names@.len(), |i: int| self.names@[i]@)
    }
}

impl View for NameSet {
    type V = Set<Seq<char>>;

    open spec fn view(&self) -> Set<Seq<char>> {
        self.members().to_set()
    }
}

impl NameSet {
    pub fn new() -> (s: Self)
        ensures
            s@ == Set::<Seq<char>>::empty(),
            s.members() == Seq::<Seq<char>>::empty(),
    {
        let s = NameSet { names: Vec::new() };
        assert(s.members() =~= Seq::<Seq<char>>::empty());
        assert(s@ =~= Set::<Seq<char>>::empty());
        s
    }

    pub fn contains(&self, name: &str) -> (r: bool)
        ensures
            r == self@.contains(name@),
    {
        let n = self.names.len();
        for i in 0..n
            invariant
                n == self.members().len(),
                forall|l: int| 0 <= l < i ==> self.members()[l] != name@,
        {
            if same_text(self.names[i].as_str(), name) {
                assert(self.members()[i as int] == name@);
                return true;
            }
        }
        false
    }

    /// Adds `name`; the result tells whether it was absent before.
    pub fn insert(&mut self, name: String) -> (added: bool)
        ensures
            added == !old(self)@.contains(name@),
            final(self)@ == old(self)@.insert(name@),
            final(self).members() == (if added { old(self).members().push(name@) } else {
                old(self).members()
            }),
    {
        if self.contains(name.as_str()) {
            assert(self@ =~= self@.insert(name@));
            false
        } else {
            let ghost k = name@;
            self.names.push(name);
            assert(self.members() =~= old(self).members().push(k));
            proof {
                old(self).members().lemma_push_to_set_commute(k);
            }
            true
        }
    }
}

} // verus!
