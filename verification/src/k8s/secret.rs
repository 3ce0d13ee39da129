//! The string data of a Kubernetes Secret: a map from key to value.

use crate::text::{lex_lt, lemma_lex_irreflexive, lemma_lex_total, lemma_lex_transitive, str_eq, str_lt};
use vstd::prelude::*;

verus! {

broadcast use vstd::string::group_string_axioms;

/// The key/value pairs of a Secret, each key present once.
pub struct SecretData {
    entries: Vec<(String, String)>,
}

/// The map a list of entries with distinct keys stands for.
pub open spec fn map_of(entries: Seq<(String, String)>) -> Map<Seq<char>, Seq<char>>
    decreases entries.len(),
{
    if entries.len() == 0 {
        Map::empty()
    } else {
        map_of(entries.drop_last()).insert(entries.last().0@, entries.last().1@)
    }
}

proof fn lemma_map_of_dom(entries: Seq<(String, String)>)
    ensures
        forall|k: Seq<char>|
            #[trigger] map_of(entries).contains_key(k) <==> exists|i: int|
                0 <= i < entries.len() && (#[trigger] entries[i]).0@ == k,
    decreases entries.len(),
{
    if entries.len() > 0 {
        let init = entries.drop_last();
        lemma_map_of_dom(init);
        assert forall|k: Seq<char>| #[trigger] map_of(entries).contains_key(k) implies exists|i: int|
            0 <= i < entries.len() && (#[trigger] entries[i]).0@ == k by {
            if k != entries.last().0@ {
                assert(map_of(init).contains_key(k));
                let i = choose|i: int| 0 <= i < init.len() && (#[trigger] init[i]).0@ == k;
                assert(entries[i] == init[i]);
            } else {
                assert(entries[entries.len() - 1].0@ == k);
            }
        }
        assert forall|k: Seq<char>|
            (exists|i: int| 0 <= i < entries.len() && (#[trigger] entries[i]).0@ == k) implies #[trigger] map_of(
            entries,
        ).contains_key(k) by {
            let i = choose|i: int| 0 <= i < entries.len() && (#[trigger] entries[i]).0@ == k;
            if i < entries.len() - 1 {
                assert(init[i] == entries[i]);
                assert(map_of(init).contains_key(k));
            }
        }
    }
}

/// With distinct keys, entry `i` is what the map holds for its key.
proof fn lemma_map_of_entry(entries: Seq<(String, String)>, i: int)
    requires
        distinct_keys(entries),
        0 <= i < entries.len(),
    ensures
        map_of(entries).contains_key(entries[i].0@),
        map_of(entries)[entries[i].0@] == entries[i].1@,
    decreases entries.len(),
{
    let init = entries.drop_last();
    if i < entries.len() - 1 {
        assert(init[i] == entries[i]);
        lemma_map_of_entry(init, i);
        assert(entries[i].0@ != entries.last().0@);
    }
}

/// Replacing the entry that holds a key replaces the key's value.
proof fn lemma_map_of_update(entries: Seq<(String, String)>, i: int, e: (String, String))
    requires
        distinct_keys(entries),
        0 <= i < entries.len(),
        entries[i].0@ == e.0@,
    ensures
        map_of(entries.update(i, e)) == map_of(entries).insert(e.0@, e.1@),
    decreases entries.len(),
{
    let init = entries.drop_last();
    let up = entries.update(i, e);
    if i == entries.len() - 1 {
        assert(up.drop_last() =~= init);
        assert(map_of(up) =~= map_of(entries).insert(e.0@, e.1@));
    } else {
        assert(up.drop_last() =~= init.update(i, e));
        lemma_distinct_init(entries);
        lemma_map_of_update(init, i, e);
        assert(entries[i].0@ != entries.last().0@);
        assert(up.last() == entries.last());
        assert(map_of(up) =~= map_of(entries).insert(e.0@, e.1@));
    }
}

/// Dropping the entry that holds a key drops the key.
proof fn lemma_map_of_remove(entries: Seq<(String, String)>, i: int)
    requires
        distinct_keys(entries),
        0 <= i < entries.len(),
    ensures
        map_of(entries.remove(i)) == map_of(entries).remove(entries[i].0@),
    decreases entries.len(),
{
    let init = entries.drop_last();
    let k = entries[i].0@;
    lemma_distinct_init(entries);
    if i == entries.len() - 1 {
        assert(entries.remove(i) =~= init);
        lemma_map_of_dom(init);
        if map_of(init).contains_key(k) {
            let j = choose|j: int| 0 <= j < init.len() && (#[trigger] init[j]).0@ == k;
            assert(init[j] == entries[j]);
        }
        assert(map_of(init) =~= map_of(entries).remove(k));
    } else {
        assert(entries.remove(i).drop_last() =~= init.remove(i));
        assert(entries.remove(i).last() == entries.last());
        assert(init[i] == entries[i]);
        lemma_map_of_remove(init, i);
        assert(k != entries.last().0@);
        assert(map_of(entries.remove(i)) =~= map_of(entries).remove(k));
    }
}

proof fn lemma_distinct_init(entries: Seq<(String, String)>)
    requires
        distinct_keys(entries),
        entries.len() > 0,
    ensures
        distinct_keys(entries.drop_last()),
{
    let init = entries.drop_last();
    assert forall|a: int, b: int| 0 <= a < b < init.len() implies (#[trigger] init[a]).0@
        != (#[trigger] init[b]).0@ by {
        assert(init[a] == entries[a] && init[b] == entries[b]);
    }
}

/// Adding an entry for a new key adds the key, wherever the entry goes.
proof fn lemma_map_of_insert(entries: Seq<(String, String)>, p: int, e: (String, String))
    requires
        0 <= p <= entries.len(),
        forall|j: int| 0 <= j < entries.len() ==> (#[trigger] entries[j]).0@ != e.0@,
    ensures
        map_of(entries.insert(p, e)) == map_of(entries).insert(e.0@, e.1@),
    decreases entries.len(),
{
    let ins = entries.insert(p, e);
    if p == entries.len() {
        assert(ins.drop_last() =~= entries);
    } else {
        let init = entries.drop_last();
        assert(ins.drop_last() =~= init.insert(p, e));
        assert(ins.last() == entries.last());
        assert forall|j: int| 0 <= j < init.len() implies (#[trigger] init[j]).0@ != e.0@ by {
            assert(init[j] == entries[j]);
        }
        lemma_map_of_insert(init, p, e);
        assert(entries[entries.len() - 1].0@ != e.0@);
        assert(map_of(ins) =~= map_of(entries).insert(e.0@, e.1@));
    }
}

/// Keys in increasing order, as a `BTreeMap` holds them.
pub open spec fn sorted_keys(entries: Seq<(String, String)>) -> bool {
    forall|i: int, j: int|
        0 <= i < j < entries.len() ==> lex_lt((#[trigger] entries[i]).0@, (#[trigger] entries[j]).0@)
}

pub open spec fn distinct_keys(entries: Seq<(String, String)>) -> bool {
    forall|i: int, j: int|
        0 <= i < j < entries.len() ==> (#[trigger] entries[i]).0@ != (#[trigger] entries[j]).0@
}

impl SecretData {
    /// Each key once, in increasing order.
    #[verifier::type_invariant]
    spec fn ordered(self) -> bool {
        &&& distinct_keys(self.entries@)
        &&& sorted_keys(self.entries@)
    }

    /// The key/value map.
    pub closed spec fn view(&self) -> Map<Seq<char>, Seq<char>> {
        map_of(self.entries@)
    }

    /// An empty Secret.
    pub fn new() -> (s: Self)
        ensures
            s.view() == Map::<Seq<char>, Seq<char>>::empty(),
    {
        SecretData { entries: Vec::new() }
    }

    /// Where `key` is held, if anywhere.
    fn position(&self, key: &str) -> (r: Option<usize>)
        ensures
            match r {
                Some(i) => i < self.entries@.len() && self.entries@[i as int].0@ == key@,
                None => !self.view().contains_key(key@),
            },
    {
        let mut i: usize = 0;
        while i < self.entries.len()
            invariant
                i <= self.entries@.len(),
                forall|j: int| 0 <= j < i ==> (#[trigger] self.entries@[j]).0@ != key@,
            decreases self.entries.len() - i,
        {
            if str_eq(self.entries[i].0.as_str(), key) {
                return Some(i);
            }
            i += 1;
        }
        proof {
            lemma_map_of_dom(self.entries@);
        }
        None
    }

    /// The value held for `key`.
    pub fn get(&self, key: &str) -> (r: Option<String>)
        ensures
            match r {
                Some(v) => self.view().contains_key(key@) && self.view()[key@] == v@,
                None => !self.view().contains_key(key@),
            },
    {
        match self.position(key) {
            Some(i) => {
                proof {
                    use_type_invariant(self);
                    lemma_map_of_entry(self.entries@, i as int);
                }
                Some(self.entries[i].1.clone())
            },
            None => None,
        }
    }

    /// Sets `key` to `value`, replacing any value it had.
    pub fn insert(&mut self, key: String, value: String)
        ensures
            final(self).view() == old(self).view().insert(key@, value@),
    {
        proof {
            use_type_invariant(&*self);
        }
        let found = self.position(key.as_str());
        let mut entries: Vec<(String, String)> = Vec::new();
        std::mem::swap(&mut entries, &mut self.entries);
        match found {
            Some(i) => {
                let ghost before = entries@;
                let ghost k = key@;
                entries.set(i, (key, value));
                proof {
                    assert forall|a: int, b: int|
                        0 <= a < b < entries@.len() implies (#[trigger] entries@[a]).0@
                        != (#[trigger] entries@[b]).0@ by {
                        if a != i as int && b != i as int {
                            assert(before[a] == entries@[a] && before[b] == entries@[b]);
                        } else if a == i as int {
                            assert(before[b] == entries@[b]);
                            assert(before[a].0@ == k);
                        } else {
                            assert(before[a] == entries@[a]);
                            assert(before[b].0@ == k);
                        }
                    }
                    assert forall|a: int, b: int|
                        0 <= a < b < entries@.len() implies lex_lt(
                        (#[trigger] entries@[a]).0@,
                        (#[trigger] entries@[b]).0@,
                    ) by {
                        assert(entries@[a].0@ == before[a].0@);
                        assert(entries@[b].0@ == before[b].0@);
                    }
                    lemma_map_of_update(before, i as int, entries@[i as int]);
                    assert(entries@ == before.update(i as int, entries@[i as int]));
                }
            },
            None => {
                let ghost before = entries@;
                let ghost e = (key, value);
                // The first entry whose key does not come before the new one.
                let mut p: usize = 0;
                while p < entries.len() && str_lt(entries[p].0.as_str(), key.as_str())
                    invariant
                        p <= entries@.len(),
                        entries@ == before,
                        forall|j: int| 0 <= j < p ==> lex_lt((#[trigger] before[j]).0@, key@),
                    decreases entries.len() - p,
                {
                    p += 1;
                }
                proof {
                    lemma_map_of_dom(before);
                    assert forall|j: int| 0 <= j < before.len() implies (#[trigger] before[j]).0@
                        != key@ by {
                        if before[j].0@ == key@ {
                            assert(map_of(before).contains_key(key@));
                        }
                    }
                    if p < before.len() {
                        lemma_lex_total(before[p as int].0@, key@);
                    }
                    assert forall|j: int| p <= j < before.len() implies lex_lt(
                        key@,
                        (#[trigger] before[j]).0@,
                    ) by {
                        if j > p {
                            lemma_lex_transitive(key@, before[p as int].0@, before[j].0@);
                        }
                    }
                }
                entries.insert(p, (key, value));
                proof {
                    let after = entries@;
                    let k = after[p as int].0@;
                    assert(after =~= before.insert(p as int, after[p as int]));
                    assert forall|a: int, b: int|
                        0 <= a < b < after.len() implies lex_lt(
                        (#[trigger] after[a]).0@,
                        (#[trigger] after[b]).0@,
                    ) by {
                        if a < p && b < p {
                            assert(after[a] == before[a] && after[b] == before[b]);
                        } else if a < p && b == p {
                            assert(after[a] == before[a]);
                        } else if a < p {
                            assert(after[a] == before[a] && after[b] == before[b - 1]);
                            lemma_lex_transitive(before[a].0@, k, before[b - 1].0@);
                        } else if a == p {
                            assert(after[b] == before[b - 1]);
                        } else {
                            assert(after[a] == before[a - 1] && after[b] == before[b - 1]);
                        }
                    }
                    assert forall|a: int, b: int|
                        0 <= a < b < after.len() implies (#[trigger] after[a]).0@ != (
                        #[trigger] after[b]).0@ by {
                        lemma_lex_irreflexive(after[a].0@);
                    }
                    lemma_map_of_insert(before, p as int, after[p as int]);
                }
            },
        }
        self.entries = entries;
    }

    /// Removes `key`, saying whether it was there.
    pub fn remove(&mut self, key: &str) -> (found: bool)
        ensures
            found == old(self).view().contains_key(key@),
            final(self).view() == old(self).view().remove(key@),
    {
        proof {
            use_type_invariant(&*self);
        }
        match self.position(key) {
            Some(i) => {
                let ghost before = self.entries@;
                let mut entries: Vec<(String, String)> = Vec::new();
                std::mem::swap(&mut entries, &mut self.entries);
                entries.remove(i);
                proof {
                    let after = entries@;
                    assert(after =~= before.remove(i as int));
                    assert forall|a: int, b: int| 0 <= a < b < after.len() implies (#[trigger] after[a]).0@
                        != (#[trigger] after[b]).0@ by {
                        let a2 = if a < i { a } else { a + 1 };
                        let b2 = if b < i { b } else { b + 1 };
                        assert(after[a] == before[a2] && after[b] == before[b2]);
                    }
                    assert forall|a: int, b: int| 0 <= a < b < after.len() implies lex_lt(
                        (#[trigger] after[a]).0@,
                        (#[trigger] after[b]).0@,
                    ) by {
                        let a2 = if a < i { a } else { a + 1 };
                        let b2 = if b < i { b } else { b + 1 };
                        assert(after[a] == before[a2] && after[b] == before[b2]);
                    }
                    lemma_map_of_entry(before, i as int);
                    lemma_map_of_remove(before, i as int);
                }
                self.entries = entries;
                true
            },
            None => {
                proof {
                    assert(self.view() =~= self.view().remove(key@));
                }
                false
            },
        }
    }

    /// The keys, in increasing order.
    pub fn keys(&self) -> (ks: Vec<String>)
        ensures
            ks@.len() == self.view().dom().len(),
            forall|i: int| 0 <= i < ks@.len() ==> self.view().contains_key(#[trigger] ks@[i]@),
            forall|k: Seq<char>|
                #[trigger] self.view().contains_key(k) ==> exists|i: int| 0 <= i < ks@.len() && ks@[i]@ == k,
            forall|i: int, j: int| 0 <= i < j < ks@.len() ==> lex_lt((#[trigger] ks@[i])@, (#[trigger] ks@[j])@),
    {
        let mut ks: Vec<String> = Vec::new();
        let mut i: usize = 0;
        while i < self.entries.len()
            invariant
                i <= self.entries@.len(),
                ks@.len() == i,
                forall|j: int| 0 <= j < i ==> (#[trigger] ks@[j])@ == self.entries@[j].0@,
            decreases self.entries.len() - i,
        {
            ks.push(self.entries[i].0.clone());
            i += 1;
        }
        proof {
            use_type_invariant(self);
            lemma_map_of_dom(self.entries@);
            lemma_map_of_len(self.entries@);
            assert forall|k: Seq<char>| #[trigger] self.view().contains_key(k) implies exists|i: int|
                0 <= i < ks@.len() && ks@[i]@ == k by {
                let i = choose|i: int|
                    0 <= i < self.entries@.len() && (#[trigger] self.entries@[i]).0@ == k;
                assert(ks@[i]@ == k);
            }
        }
        ks
    }
}

/// With distinct keys the map has one key per entry.
proof fn lemma_map_of_len(entries: Seq<(String, String)>)
    requires
        distinct_keys(entries),
    ensures
        map_of(entries).dom().finite(),
        map_of(entries).dom().len() == entries.len(),
    decreases entries.len(),
{
    if entries.len() > 0 {
        let init = entries.drop_last();
        assert(distinct_keys(init)) by {
            assert forall|a: int, b: int| 0 <= a < b < init.len() implies (#[trigger] init[a]).0@
                != (#[trigger] init[b]).0@ by {
                assert(init[a] == entries[a] && init[b] == entries[b]);
            }
        }
        lemma_map_of_len(init);
        lemma_map_of_dom(init);
        if map_of(init).contains_key(entries.last().0@) {
            let j = choose|j: int| 0 <= j < init.len() && (#[trigger] init[j]).0@ == entries.last().0@;
            assert(init[j] == entries[j]);
        }
    }
}

} // verus!
