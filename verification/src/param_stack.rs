//! The handler arguments that a route has not yet given a source.
use vstd::prelude::*;

use crate::ast::{ty_view, Ty, TyV};

verus! {

/// Whether some entry of `s` has key `k`.
pub open spec fn has_key(s: Seq<(String, Ty)>, k: Seq<char>) -> bool {
    exists|i: int| 0 <= i < s.len() && #[trigger] s[i].0@ == k
}

/// An index of an entry of `s` with key `k`.
pub open spec fn key_index(s: Seq<(String, Ty)>, k: Seq<char>) -> int {
    choose|i: int| 0 <= i < s.len() && #[trigger] s[i].0@ == k
}

/// Whether no two entries of `s` have the same key.
pub open spec fn distinct_keys(s: Seq<(String, Ty)>) -> bool {
    forall|i: int, j: int| 0 <= i < s.len() && 0 <= j < s.len() && i != j ==> s[i].0@ != s[j].0@
}

/// The map from keys to type views that the entries of `s` make.
pub open spec fn entries_map(s: Seq<(String, Ty)>) -> Map<Seq<char>, TyV> {
    Map::new(|k: Seq<char>| has_key(s, k), |k: Seq<char>| ty_view(s[key_index(s, k)].1))
}

/// In entries with distinct keys, the entry with a key is the one at its index.
pub proof fn lemma_key_index(s: Seq<(String, Ty)>, i: int)
    requires
        distinct_keys(s),
        0 <= i < s.len(),
    ensures
        has_key(s, s[i].0@),
        key_index(s, s[i].0@) == i,
        entries_map(s)[s[i].0@] == ty_view(s[i].1),
{
    assert(has_key(s, s[i].0@));
}

/// Where `entries` has an entry for `key`, if anywhere.
fn find_key(entries: &Vec<(String, Ty)>, key: &String) -> (r: Option<usize>)
    ensures
        match r {
            Some(i) => i < entries@.len() && entries@[i as int].0@ == key@,
            None => !has_key(entries@, key@),
        },
{
    let mut i: usize = 0;
    while i < entries.len()
        invariant
            0 <= i <= entries@.len(),
            forall|j: int| 0 <= j < i ==> entries@[j].0@ != key@,
        decreases entries@.len() - i,
    {
        if entries[i].0 == *key {
            return Some(i);
        }
        i = i + 1;
    }
    None
}

/// Takes the entry for `key` out of `entries`, and gives its type.
fn remove_key(entries: &mut Vec<(String, Ty)>, key: &String) -> (r: Option<Ty>)
    requires
        distinct_keys(old(entries)@),
    ensures
        distinct_keys(final(entries)@),
        entries_map(final(entries)@) == entries_map(old(entries)@).remove(key@),
        match r {
            Some(t) => entries_map(old(entries)@).contains_key(key@) && ty_view(t) == entries_map(
                old(entries)@,
            )[key@],
            None => !entries_map(old(entries)@).contains_key(key@),
        },
{
    match find_key(entries, key) {
        Some(i) => {
            let ghost s = entries@;
            proof {
                lemma_key_index(s, i as int);
            }
            let (_, t) = entries.remove(i);
            proof {
                let s2 = entries@;
                assert(s2 == s.remove(i as int));
                assert forall|k: Seq<char>| #[trigger] has_key(s2, k) == (has_key(s, k) && k != key@) by {
                    if has_key(s2, k) {
                        let j = choose|j: int| 0 <= j < s2.len() && s2[j].0@ == k;
                        if j < i {
                            assert(s[j] == s2[j]);
                        } else {
                            assert(s[j + 1] == s2[j]);
                        }
                    }
                    if has_key(s, k) && k != key@ {
                        let j = choose|j: int| 0 <= j < s.len() && s[j].0@ == k;
                        if j < i {
                            assert(s2[j] == s[j]);
                        } else {
                            assert(j != i);
                            assert(s2[j - 1] == s[j]);
                        }
                    }
                }
                assert forall|k: Seq<char>| #[trigger] has_key(s2, k) implies entries_map(s2)[k] == entries_map(s)[k] by {
                    let j = key_index(s2, k);
                    if j < i {
                        assert(s2[j] == s[j]);
                        lemma_key_index(s, j);
                    } else {
                        assert(s2[j] == s[j + 1]);
                        lemma_key_index(s, j + 1);
                    }
                }
                assert(entries_map(s2) =~= entries_map(s).remove(key@));
            }
            Some(t)
        },
        None => {
            assert(entries_map(entries@) =~= entries_map(entries@).remove(key@));
            None
        },
    }
}

/// Sets the type for `key` in `entries`, in place of the one it had, if any.
fn insert_key(entries: &mut Vec<(String, Ty)>, key: String, ty: Ty)
    requires
        distinct_keys(old(entries)@),
    ensures
        distinct_keys(final(entries)@),
        entries_map(final(entries)@) == entries_map(old(entries)@).insert(key@, ty_view(ty)),
{
    let _ = remove_key(entries, &key);
    let ghost s = entries@;
    let ghost k = key@;
    assert(!entries_map(s).dom().contains(k));
    let ghost v = ty_view(ty);
    entries.push((key, ty));
    proof {
        let s2 = entries@;
        assert(s2 == s.push((s2.last().0, s2.last().1)));
        assert(!has_key(s, k));
        assert forall|j: int| 0 <= j < s.len() implies s[j].0@ != k by {
            if s[j].0@ == k {
                assert(has_key(s, k));
            }
        }
        assert(distinct_keys(s2));
        lemma_key_index(s2, s.len() as int);
        assert forall|x: Seq<char>| #[trigger] has_key(s2, x) == (has_key(s, x) || x == k) by {
            if has_key(s, x) {
                let j = choose|j: int| 0 <= j < s.len() && s[j].0@ == x;
                assert(s2[j] == s[j]);
            }
            if has_key(s2, x) && x != k {
                let j = choose|j: int| 0 <= j < s2.len() && s2[j].0@ == x;
                assert(j < s.len());
                assert(s[j] == s2[j]);
            }
        }
        assert forall|x: Seq<char>| #[trigger] has_key(s, x) implies entries_map(s2)[x] == entries_map(s)[x] by {
            let j = key_index(s, x);
            lemma_key_index(s, j);
            assert(s2[j] == s[j]);
            lemma_key_index(s2, j);
        }
        assert(entries_map(s2) =~= entries_map(s).insert(k, v));
    }
}

/// The arguments of a handler that still need a source, by name in
/// generated code, with their types: a map with one entry per name.
pub struct ParamStack {
    entries: Vec<(String, Ty)>,
}

impl ParamStack {
    pub closed spec fn view(&self) -> Map<Seq<char>, TyV> {
        entries_map(self.entries@)
    }

    /// No two entries have the same name.
    #[verifier::type_invariant]
    spec fn keys_distinct(&self) -> bool {
        distinct_keys(self.entries@)
    }

    /// An empty stack.
    pub fn new() -> (r: ParamStack)
        ensures
            r.view() == Map::<Seq<char>, TyV>::empty(),
    {
        let r = ParamStack { entries: Vec::new() };
        assert(r.view() =~= Map::<Seq<char>, TyV>::empty());
        r
    }

    /// Takes the entry for `key` out of the stack, and gives its type.
    pub fn remove(&mut self, key: &String) -> (r: Option<Ty>)
        ensures
            final(self).view() == old(self).view().remove(key@),
            match r {
                Some(t) => old(self).view().contains_key(key@) && ty_view(t) == old(self).view()[key@],
                None => !old(self).view().contains_key(key@),
            },
    {
        proof {
            use_type_invariant(&*self);
        }
        let mut entries: Vec<(String, Ty)> = Vec::new();
        std::mem::swap(&mut entries, &mut self.entries);
        let r = remove_key(&mut entries, key);
        self.entries = entries;
        r
    }

    /// Sets the type for `key`, in place of the one it had, if any.
    pub fn insert(&mut self, key: String, ty: Ty)
        ensures
            final(self).view() == old(self).view().insert(key@, ty_view(ty)),
    {
        proof {
            use_type_invariant(&*self);
        }
        let mut entries: Vec<(String, Ty)> = Vec::new();
        std::mem::swap(&mut entries, &mut self.entries);
        insert_key(&mut entries, key, ty);
        self.entries = entries;
    }

    /// Empties the stack and gives all its entries, in no particular order.
    pub fn drain(&mut self) -> (r: Vec<(String, Ty)>)
        ensures
            final(self).view() == Map::<Seq<char>, TyV>::empty(),
            distinct_keys(r@),
            entries_map(r@) == old(self).view(),
    {
        proof {
            use_type_invariant(&*self);
        }
        let mut r: Vec<(String, Ty)> = Vec::new();
        std::mem::swap(&mut r, &mut self.entries);
        assert(self.view() =~= Map::<Seq<char>, TyV>::empty());
        r
    }
}

} // verus!
