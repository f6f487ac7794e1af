//! The open connections of a session, each kept under its id.
use vstd::prelude::*;

use crate::text::str_eq;

verus! {

/// No id occurs twice among `s`.
pub open spec fn ids_distinct<T>(s: Seq<(String, T)>) -> bool {
    forall|i: int, j: int|
        0 <= i < s.len() && 0 <= j < s.len() && i != j ==> #[trigger] s[i].0@ != #[trigger] s[j].0@
}

/// The value under each id of `s`.
pub open spec fn entry_map<T>(s: Seq<(String, T)>) -> Map<Seq<char>, T>
    decreases s.len(),
{
    if s.len() == 0 {
        Map::empty()
    } else {
        entry_map(s.drop_last()).insert(s.last().0@, s.last().1)
    }
}

/// An id is in the map of `s` exactly when an entry carries it, and with
/// distinct ids it maps to that entry's value.
proof fn lemma_entry_map_lookup<T>(s: Seq<(String, T)>, k: Seq<char>)
    ensures
        entry_map(s).contains_key(k) <==> exists|i: int| 0 <= i < s.len() && #[trigger] s[i].0@ == k,
        forall|i: int|
            0 <= i < s.len() && ids_distinct(s) && #[trigger] s[i].0@ == k ==> entry_map(s)[k]
                == s[i].1,
    decreases s.len(),
{
    if s.len() > 0 {
        let p = s.drop_last();
        lemma_entry_map_lookup(p, k);
        assert forall|i: int| 0 <= i < p.len() implies #[trigger] p[i] == s[i] by {}
        if entry_map(s).contains_key(k) && s.last().0@ != k {
            let i = choose|i: int| 0 <= i < p.len() && #[trigger] p[i].0@ == k;
            assert(s[i].0@ == k);
        }
        if exists|i: int| 0 <= i < s.len() && #[trigger] s[i].0@ == k {
            let i = choose|i: int| 0 <= i < s.len() && #[trigger] s[i].0@ == k;
            if i < s.len() - 1 {
                assert(p[i].0@ == k);
            }
        }
        assert forall|i: int|
            0 <= i < s.len() && ids_distinct(s) && #[trigger] s[i].0@ == k implies entry_map(s)[k]
            == s[i].1 by {
            if i < s.len() - 1 {
                assert(p[i].0@ == k);
                assert(s[s.len() - 1].0@ != s[i].0@);
            }
        }
    }
}

/// Taking out the entry at `i` takes its id out of the map.
proof fn lemma_entry_map_remove<T>(s: Seq<(String, T)>, i: int)
    requires
        0 <= i < s.len(),
        ids_distinct(s),
    ensures
        entry_map(s.remove(i)) == entry_map(s).remove(s[i].0@),
        ids_distinct(s.remove(i)),
{
    let r = s.remove(i);
    let k = s[i].0@;
    assert forall|a: int, b: int|
        0 <= a < r.len() && 0 <= b < r.len() && a != b implies #[trigger] r[a].0@ != #[trigger] r[b].0@ by {
        let a2 = if a < i { a } else { a + 1 };
        let b2 = if b < i { b } else { b + 1 };
        assert(r[a] == s[a2]);
        assert(r[b] == s[b2]);
    }
    assert forall|key: Seq<char>|
        #![auto]
        entry_map(r).contains_key(key) <==> entry_map(s).remove(k).contains_key(key) by {
        lemma_entry_map_lookup(r, key);
        lemma_entry_map_lookup(s, key);
        if entry_map(r).contains_key(key) {
            let a = choose|a: int| 0 <= a < r.len() && #[trigger] r[a].0@ == key;
            let a2 = if a < i { a } else { a + 1 };
            assert(s[a2].0@ == key);
            assert(key != k);
        }
        if entry_map(s).remove(k).contains_key(key) {
            let a = choose|a: int| 0 <= a < s.len() && #[trigger] s[a].0@ == key;
            assert(a != i);
            let a2 = if a < i { a } else { a - 1 };
            assert(r[a2].0@ == key);
        }
    }
    assert forall|key: Seq<char>| #[trigger] entry_map(r).contains_key(key) implies entry_map(r)[key]
        == entry_map(s).remove(k)[key] by {
        lemma_entry_map_lookup(r, key);
        lemma_entry_map_lookup(s, key);
        let a = choose|a: int| 0 <= a < r.len() && #[trigger] r[a].0@ == key;
        let a2 = if a < i { a } else { a + 1 };
        assert(r[a] == s[a2]);
    }
    assert(entry_map(r) =~= entry_map(s).remove(k));
}

/// The open connections, each under its id.
pub struct Registry<T> {
    entries: Vec<(String, T)>,
}

impl<T> View for Registry<T> {
    type V = Map<Seq<char>, T>;

    closed spec fn view(&self) -> Map<Seq<char>, T> {
        entry_map(self.entries@)
    }
}

impl<T> Registry<T> {
    #[verifier::type_invariant]
    spec fn distinct(self) -> bool {
        ids_distinct(self.entries@)
    }

    /// No connections.
    pub fn new() -> (r: Self)
        ensures
            r@ == Map::<Seq<char>, T>::empty(),
    {
        Registry { entries: Vec::new() }
    }

    /// Where the entry for `id` stands, if there is one.
    fn position(&self, id: &str) -> (r: Option<usize>)
        ensures
            match r {
                Some(i) => i < self.entries@.len() && self.entries@[i as int].0@ == id@,
                None => forall|j: int|
                    0 <= j < self.entries@.len() ==> #[trigger] self.entries@[j].0@ != id@,
            },
    {
        let mut i: usize = 0;
        while i < self.entries.len()
            invariant
                i <= self.entries@.len(),
                forall|j: int| 0 <= j < i ==> #[trigger] self.entries@[j].0@ != id@,
            decreases self.entries@.len() - i,
        {
            if str_eq(self.entries[i].0.as_str(), id) {
                return Some(i);
            }
            i = i + 1;
        }
        None
    }

    /// The connection under `id`.
    pub fn get(&self, id: &str) -> (r: Option<&T>)
        ensures
            match r {
                Some(v) => self@.contains_key(id@) && *v == self@[id@],
                None => !self@.contains_key(id@),
            },
    {
        proof {
            use_type_invariant(self);
            lemma_entry_map_lookup(self.entries@, id@);
        }
        match self.position(id) {
            Some(i) => Some(&self.entries[i].1),
            None => None,
        }
    }

    /// Whether a connection is kept under `id`.
    pub fn contains(&self, id: &str) -> (r: bool)
        ensures
            r == self@.contains_key(id@),
    {
        self.get(id).is_some()
    }

    /// Takes the connection under `id` out, giving it back.
    pub fn remove(&mut self, id: &str) -> (r: Option<T>)
        ensures
            final(self)@ == old(self)@.remove(id@),
            match r {
                Some(v) => old(self)@.contains_key(id@) && v == old(self)@[id@],
                None => !old(self)@.contains_key(id@),
            },
    {
        proof {
            use_type_invariant(&*self);
            lemma_entry_map_lookup(self.entries@, id@);
        }
        match self.position(id) {
            Some(i) => {
                let mut entries: Vec<(String, T)> = Vec::new();
                std::mem::swap(&mut entries, &mut self.entries);
                proof {
                    lemma_entry_map_remove(entries@, i as int);
                }
                let e = entries.remove(i);
                self.entries = entries;
                Some(e.1)
            },
            None => {
                proof {
                    assert(old(self)@.remove(id@) =~= old(self)@);
                }
                None
            },
        }
    }

    /// Keeps `value` under `id`, giving back the connection it replaces.
    pub fn insert(&mut self, id: String, value: T) -> (r: Option<T>)
        ensures
            final(self)@ == old(self)@.insert(id@, value),
            match r {
                Some(v) => old(self)@.contains_key(id@) && v == old(self)@[id@],
                None => !old(self)@.contains_key(id@),
            },
    {
        let old_value = self.remove(id.as_str());
        proof {
            use_type_invariant(&*self);
            lemma_entry_map_lookup(self.entries@, id@);
        }
        let mut entries: Vec<(String, T)> = Vec::new();
        std::mem::swap(&mut entries, &mut self.entries);
        let ghost before = entries@;
        entries.push((id, value));
        proof {
            assert(entries@.drop_last() =~= before);
            assert forall|a: int, b: int|
                0 <= a < entries@.len() && 0 <= b < entries@.len() && a != b implies
                #[trigger] entries@[a].0@ != #[trigger] entries@[b].0@ by {
                if a < before.len() && b < before.len() {
                    assert(entries@[a] == before[a]);
                    assert(entries@[b] == before[b]);
                } else if a < before.len() {
                    assert(entries@[a] == before[a]);
                    assert(before[a].0@ != id@);
                } else if b < before.len() {
                    assert(entries@[b] == before[b]);
                    assert(before[b].0@ != id@);
                }
            }
            assert(old(self)@.remove(id@).insert(id@, value) =~= old(self)@.insert(id@, value));
        }
        self.entries = entries;
        old_value
    }

    /// Drops every connection.
    pub fn clear(&mut self)
        ensures
            final(self)@ == Map::<Seq<char>, T>::empty(),
    {
        self.entries = Vec::new();
    }

    /// The ids kept, each once.
    pub fn ids(&self) -> (r: Vec<String>)
        ensures
            forall|i: int| 0 <= i < r@.len() ==> self@.contains_key(#[trigger] r@[i]@),
            forall|k: Seq<char>| self@.contains_key(k) ==> exists|i: int| 0 <= i < r@.len() && #[trigger] r@[i]@ == k,
            forall|i: int, j: int| 0 <= i < r@.len() && 0 <= j < r@.len() && i != j ==> #[trigger] r@[i]@ != #[trigger] r@[j]@,
    {
        proof {
            use_type_invariant(self);
        }
        let mut out: Vec<String> = Vec::new();
        let mut i: usize = 0;
        while i < self.entries.len()
            invariant
                i <= self.entries@.len(),
                out@.len() == i,
                ids_distinct(self.entries@),
                forall|j: int| 0 <= j < i ==> #[trigger] out@[j]@ == self.entries@[j].0@,
            decreases self.entries@.len() - i,
        {
            let s = crate::text::copy_string(&self.entries[i].0);
            out.push(s);
            i = i + 1;
        }
        proof {
            assert forall|j: int| 0 <= j < out@.len() implies self@.contains_key(#[trigger] out@[j]@) by {
                lemma_entry_map_lookup(self.entries@, out@[j]@);
                assert(self.entries@[j].0@ == out@[j]@);
            }
            assert forall|k: Seq<char>| self@.contains_key(k) implies exists|j: int|
                0 <= j < out@.len() && #[trigger] out@[j]@ == k by {
                lemma_entry_map_lookup(self.entries@, k);
                let j = choose|j: int| 0 <= j < self.entries@.len() && #[trigger] self.entries@[j].0@ == k;
                assert(out@[j]@ == k);
            }
            assert forall|a: int, b: int| 0 <= a < out@.len() && 0 <= b < out@.len() && a != b implies
                #[trigger] out@[a]@ != #[trigger] out@[b]@ by {
                assert(self.entries@[a].0@ != self.entries@[b].0@);
            }
        }
        out
    }
}

} // verus!
