//! A small map from texts to values, kept as a list without repeated keys.

use crate::text::same;
use vstd::prelude::*;

verus! {

pub struct Table<V> {
    entries: Vec<(String, V)>,
}

spec fn distinct<V>(s: Seq<(String, V)>) -> bool {
    forall|i: int, j: int| 0 <= i < j < s.len() ==> (#[trigger] s[i]).0@ != (#[trigger] s[j]).0@
}

spec fn holds<V>(s: Seq<(String, V)>, k: Seq<char>, i: int) -> bool {
    0 <= i < s.len() && s[i].0@ == k
}

spec fn map_of<V>(s: Seq<(String, V)>) -> Map<Seq<char>, V> {
    Map::new(
        |k: Seq<char>| exists|i: int| holds(s, k, i),
        |k: Seq<char>| s[choose|i: int| holds(s, k, i)].1,
    )
}

proof fn map_of_entry<V>(s: Seq<(String, V)>, i: int)
    requires
        distinct(s),
        0 <= i < s.len(),
    ensures
        map_of(s).contains_key(s[i].0@),
        map_of(s)[s[i].0@] == s[i].1,
{
    let k = s[i].0@;
    assert(holds(s, k, i));
    let j = choose|j: int| holds(s, k, j);
    assert(holds(s, k, j));
    assert(i == j);
}

proof fn map_of_push<V>(s: Seq<(String, V)>, e: (String, V))
    requires
        distinct(s),
        !map_of(s).contains_key(e.0@),
    ensures
        distinct(s.push(e)),
        map_of(s.push(e)) == map_of(s).insert(e.0@, e.1),
{
    let t = s.push(e);
    assert forall|i: int, j: int| 0 <= i < j < t.len() implies (#[trigger] t[i]).0@ != (
    #[trigger] t[j]).0@ by {
        if j == s.len() && t[i].0@ == e.0@ {
            assert(holds(s, e.0@, i));
        }
    }
    let m = map_of(s).insert(e.0@, e.1);
    assert forall|k: Seq<char>| #[trigger] m.contains_key(k) == map_of(t).contains_key(k) by {
        if map_of(s).contains_key(k) {
            let i = choose|i: int| holds(s, k, i);
            assert(holds(t, k, i));
        }
        if k == e.0@ {
            assert(holds(t, k, s.len() as int));
        }
        if map_of(t).contains_key(k) {
            let i = choose|i: int| holds(t, k, i);
            if i < s.len() {
                assert(holds(s, k, i));
            }
        }
    }
    assert forall|k: Seq<char>| #[trigger] m.contains_key(k) implies m[k] == map_of(t)[k] by {
        let i = choose|i: int| holds(t, k, i);
        assert(holds(t, k, i));
        map_of_entry(t, i);
        if i < s.len() {
            map_of_entry(s, i);
            assert(holds(s, k, i));
        }
    }
    assert(m =~= map_of(t));
}

proof fn map_of_remove<V>(s: Seq<(String, V)>, i: int)
    requires
        distinct(s),
        0 <= i < s.len(),
    ensures
        distinct(s.remove(i)),
        map_of(s.remove(i)) == map_of(s).remove(s[i].0@),
{
    let t = s.remove(i);
    let m = map_of(s).remove(s[i].0@);
    assert forall|k: Seq<char>| #[trigger] m.contains_key(k) == map_of(t).contains_key(k) by {
        if m.contains_key(k) {
            let j = choose|j: int| holds(s, k, j);
            assert(holds(s, k, j));
            if j < i {
                assert(holds(t, k, j));
            } else {
                assert(holds(t, k, j - 1));
            }
        }
        if map_of(t).contains_key(k) {
            let j = choose|j: int| holds(t, k, j);
            assert(holds(t, k, j));
            if j < i {
                assert(holds(s, k, j));
            } else {
                assert(holds(s, k, j + 1));
            }
        }
    }
    assert forall|k: Seq<char>| #[trigger] m.contains_key(k) implies m[k] == map_of(t)[k] by {
        assert(map_of(t).contains_key(k));
        let j = choose|j: int| holds(t, k, j);
        assert(holds(t, k, j));
        map_of_entry(t, j);
        if j < i {
            map_of_entry(s, j);
        } else {
            map_of_entry(s, j + 1);
        }
    }
    assert(m =~= map_of(t));
}

proof fn map_of_len<V>(s: Seq<(String, V)>)
    requires
        distinct(s),
    ensures
        map_of(s).dom().finite(),
        map_of(s).dom().len() == s.len(),
    decreases s.len(),
{
    if s.len() == 0 {
        assert(map_of(s).dom() =~= Set::empty());
    } else {
        let r = s.drop_last();
        let e = s.last();
        map_of_len(r);
        if map_of(r).contains_key(e.0@) {
            let i = choose|i: int| holds(r, e.0@, i);
            assert(holds(r, e.0@, i));
            assert(s[i].0@ == s[s.len() - 1].0@);
        }
        map_of_push(r, e);
        assert(r.push(e) =~= s);
        assert(map_of(s).dom() =~= map_of(r).dom().insert(e.0@));
    }
}

impl<V> View for Table<V> {
    type V = Map<Seq<char>, V>;

    closed spec fn view(&self) -> Map<Seq<char>, V> {
        map_of(self.entries@)
    }
}

impl<V> Table<V> {
    #[verifier::type_invariant]
    spec fn wf(self) -> bool {
        distinct(self.entries@)
    }

    pub fn new() -> (t: Self)
        ensures
            t@ == Map::<Seq<char>, V>::empty(),
    {
        let t = Table { entries: Vec::new() };
        assert(t@ =~= Map::<Seq<char>, V>::empty());
        t
    }

    pub fn len(&self) -> (n: usize)
        ensures
            self@.dom().finite(),
            n == self@.dom().len(),
    {
        proof {
            use_type_invariant(self);
            map_of_len(self.entries@);
        }
        self.entries.len()
    }

    fn position(&self, k: &str) -> (r: Option<usize>)
        ensures
            match r {
                Some(i) => holds(self.entries@, k@, i as int),
                None => !self@.contains_key(k@),
            },
    {
        let mut i: usize = 0;
        while i < self.entries.len()
            invariant
                i <= self.entries@.len(),
                forall|j: int| 0 <= j < i ==> !holds(self.entries@, k@, j),
            decreases self.entries@.len() - i,
        {
            if same(self.entries[i].0.as_str(), k) {
                return Some(i);
            }
            i += 1;
        }
        None
    }

    pub fn get(&self, k: &str) -> (r: Option<&V>)
        ensures
            match r {
                Some(v) => self@.contains_key(k@) && self@[k@] == *v,
                None => !self@.contains_key(k@),
            },
    {
        match self.position(k) {
            Some(i) => {
                proof {
                    use_type_invariant(self);
                    map_of_entry(self.entries@, i as int);
                }
                Some(&self.entries[i].1)
            },
            None => None,
        }
    }

    pub fn has(&self, k: &str) -> (r: bool)
        ensures
            r == self@.contains_key(k@),
    {
        self.get(k).is_some()
    }

    /// Takes the value of a key out, if there is one.
    pub fn remove(&mut self, k: &str) -> (r: Option<V>)
        ensures
            final(self)@ == old(self)@.remove(k@),
            match r {
                Some(v) => old(self)@.contains_key(k@) && old(self)@[k@] == v,
                None => !old(self)@.contains_key(k@),
            },
    {
        let at = self.position(k);
        proof {
            use_type_invariant(&*self);
        }
        match at {
            Some(i) => {
                proof {
                    map_of_entry(self.entries@, i as int);
                    map_of_remove(self.entries@, i as int);
                }
                let mut e: Vec<(String, V)> = Vec::new();
                std::mem::swap(&mut e, &mut self.entries);
                let gone = e.remove(i);
                self.entries = e;
                Some(gone.1)
            },
            None => {
                assert(self@.remove(k@) =~= self@);
                None
            },
        }
    }

    /// Sets the value of a key.
    pub fn insert(&mut self, k: String, v: V)
        ensures
            final(self)@ == old(self)@.insert(k@, v),
    {
        let ghost before = self@;
        let _ = self.remove(k.as_str());
        proof {
            use_type_invariant(&*self);
            map_of_push(self.entries@, (k, v));
            assert(before.remove(k@).insert(k@, v) =~= before.insert(k@, v));
        }
        let mut e: Vec<(String, V)> = Vec::new();
        std::mem::swap(&mut e, &mut self.entries);
        e.push((k, v));
        self.entries = e;
    }

    pub fn clear(&mut self)
        ensures
            final(self)@ == Map::<Seq<char>, V>::empty(),
    {
        self.entries = Vec::new();
        assert(self@ =~= Map::<Seq<char>, V>::empty());
    }
}

} // verus!
