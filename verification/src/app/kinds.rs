//! Which kind of board each sketch is made for.
use vstd::prelude::*;

use crate::text::same;

verus! {

/// A map from the path of a sketch to the kind of its board.
pub struct Kinds {
    entries: Vec<(String, String)>,
}

/// Entry `i` is the one of `key`.
spec fn keyed(entries: Seq<(String, String)>, key: Seq<char>, i: int) -> bool {
    0 <= i < entries.len() && entries[i].0@ == key
}

spec fn map_of(entries: Seq<(String, String)>) -> Map<Seq<char>, Seq<char>> {
    Map::new(
        |key: Seq<char>| exists|i: int| keyed(entries, key, i),
        |key: Seq<char>| entries[choose|i: int| keyed(entries, key, i)].1@,
    )
}

impl View for Kinds {
    type V = Map<Seq<char>, Seq<char>>;

    closed spec fn view(&self) -> Map<Seq<char>, Seq<char>> {
        map_of(self.entries@)
    }
}

/// What a map holds at a key, if it holds anything.
pub open spec fn at(m: Map<Seq<char>, Seq<char>>, key: Seq<char>) -> Option<Seq<char>> {
    if m.contains_key(key) {
        Some(m[key])
    } else {
        None
    }
}

impl Kinds {
    /// Every sketch has one entry at most.
    #[verifier::type_invariant]
    spec fn distinct(self) -> bool {
        forall|i: int, j: int|
            0 <= i < j < self.entries@.len() ==> (#[trigger] self.entries@[i]).0@ != (
            #[trigger] self.entries@[j]).0@
    }

    pub fn new() -> (r: Kinds)
        ensures
            r@ == Map::<Seq<char>, Seq<char>>::empty(),
    {
        let r = Kinds { entries: Vec::new() };
        assert(r@ =~= Map::<Seq<char>, Seq<char>>::empty());
        r
    }

    /// The place of a key's entry; the number of entries where it has none.
    fn place(&self, key: &str) -> (r: usize)
        ensures
            r <= self.entries@.len(),
            r < self.entries@.len() ==> keyed(self.entries@, key@, r as int),
            r == self.entries@.len() ==> forall|i: int| !keyed(self.entries@, key@, i),
    {
        for i in 0..self.entries.len()
            invariant
                forall|j: int| j < i ==> !keyed(self.entries@, key@, j),
        {
            if same(self.entries[i].0.as_str(), key) {
                return i;
            }
        }
        self.entries.len()
    }

    pub fn get(&self, key: &str) -> (r: Option<&String>)
        ensures
            r.deep_view() == at(self@, key@),
    {
        let i: usize = self.place(key);
        if i < self.entries.len() {
            proof {
                use_type_invariant(self);
                let k = choose|k: int| keyed(self.entries@, key@, k);
                assert(k == i);
            }
            Some(&self.entries[i].1)
        } else {
            None
        }
    }

    pub fn insert(&mut self, key: &str, kind: &str)
        ensures
            final(self)@ == old(self)@.insert(key@, kind@),
    {
        proof {
            use_type_invariant(&*self);
        }
        let ghost was = self.entries@;
        let i: usize = self.place(key);
        let mut entries: Vec<(String, String)> = Vec::new();
        std::mem::swap(&mut entries, &mut self.entries);
        let entry = (key.to_owned(), kind.to_owned());
        if i < entries.len() {
            entries.set(i, entry);
        } else {
            entries.push(entry);
        }
        let ghost now = entries@;
        proof {
            assert forall|a: int, b: int| 0 <= a < b < now.len() implies (#[trigger] now[a]).0@ != (
            #[trigger] now[b]).0@ by {
                if a != i && b != i {
                    assert(was[a].0@ != was[b].0@);
                } else {
                    let other = if a == i {
                        b
                    } else {
                        a
                    };
                    assert(now[other] == was[other]);
                    if i < was.len() {
                        assert(was[i as int].0@ == key@);
                        assert(was[a].0@ != was[b].0@);
                    } else {
                        assert(!keyed(was, key@, other));
                    }
                }
            }
        }
        self.entries = entries;
        proof {
            let a = map_of(was).insert(key@, kind@);
            let b = map_of(now);
            assert(keyed(now, key@, i as int));
            assert forall|k: Seq<char>| #[trigger] a.contains_key(k) == b.contains_key(k) by {
                if exists|j: int| keyed(was, k, j) {
                    let j = choose|j: int| keyed(was, k, j);
                    assert(keyed(now, k, j));
                }
                if exists|j: int| keyed(now, k, j) {
                    let j = choose|j: int| keyed(now, k, j);
                    if j != i {
                        assert(keyed(was, k, j));
                    }
                }
            }
            assert forall|k: Seq<char>| #[trigger] a.contains_key(k) implies a[k] == b[k] by {
                let j = choose|j: int| keyed(now, k, j);
                if k == key@ {
                    assert(keyed(now, k, i as int));
                    assert(j == i);
                } else {
                    assert(b.contains_key(k));
                    assert(j != i);
                    assert(keyed(was, k, j));
                    let m = choose|m: int| keyed(was, k, m);
                    assert(m == j);
                }
            }
            assert(a =~= b);
        }
    }
}

} // verus!
