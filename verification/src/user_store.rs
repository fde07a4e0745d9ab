//! A store of users keyed by name, with the names kept in insertion order so
//! that the whole store can be listed and saved.

use vstd::hash_map::StringHashMap;
use vstd::prelude::*;

use crate::authentication::User;
use crate::authentication::UserView;

verus! {

/// Users keyed by name.
pub struct UserStore {
    map: StringHashMap<User>,
    names: Vec<String>,
}

impl UserStore {
    /// The names, in the order they were first inserted.
    pub closed spec fn names(&self) -> Seq<Seq<char>> {
        self.names@.map_values(|s: String| s@)
    }

    /// Well-formedness: every key is listed exactly once in `names`.
    pub closed spec fn wf(&self) -> bool {
        &&& forall|i: int, j: int|
            0 <= i < j < self.names@.len() ==> #[trigger] self.names@[i]@ != #[trigger] self.names@[j]@
        &&& forall|i: int| 0 <= i < self.names@.len() ==> self.map@.contains_key(#[trigger] self.names@[i]@)
        &&& forall|k: Seq<char>|
            #[trigger] self.map@.contains_key(k) ==> exists|i: int| 0 <= i < self.names@.len() && self.names@[i]@ == k
    }

    /// An empty store.
    pub fn new() -> (s: Self)
        ensures
            s.wf(),
            s@ == Map::<Seq<char>, UserView>::empty(),
            s.names() == Seq::<Seq<char>>::empty(),
    {
        let s = UserStore { map: StringHashMap::new(), names: Vec::new() };
        assert(s@ =~= Map::<Seq<char>, UserView>::empty());
        assert(s.names() =~= Seq::<Seq<char>>::empty());
        s
    }

    /// The number of users.
    pub fn len(&self) -> (n: usize)
        requires
            self.wf(),
        ensures
            n == self@.len(),
    {
        proof {
            self.lemma_names_list_keys();
        }
        self.names.len()
    }

    /// The names list every key exactly once.
    pub proof fn lemma_names_list_keys(&self)
        requires
            self.wf(),
        ensures
            self@.len() == self.names().len(),
            self@.dom() == self.names().to_set(),
            self.names().no_duplicates(),
    {
        let ns = self.names();
        assert(self@.dom() =~= ns.to_set()) by {
            assert forall|k: Seq<char>| self@.dom().contains(k) implies ns.to_set().contains(k) by {
                let i = choose|i: int| 0 <= i < self.names@.len() && self.names@[i]@ == k;
                assert(ns[i] == k);
            }
            assert forall|k: Seq<char>| ns.to_set().contains(k) implies self@.dom().contains(k) by {
                let i = choose|i: int| 0 <= i < ns.len() && ns[i] == k;
                assert(self.map@.contains_key(self.names@[i]@));
            }
        }
        assert(ns.no_duplicates()) by {
            assert forall|i: int, j: int| 0 <= i < ns.len() && 0 <= j < ns.len() && i != j implies ns[i] != ns[j] by {
                if i < j {
                    assert(self.names@[i]@ != self.names@[j]@);
                } else {
                    assert(self.names@[j]@ != self.names@[i]@);
                }
            }
        }
        ns.unique_seq_to_set();
    }

    /// Whether a user is stored under `key`.
    pub fn contains_key(&self, key: &str) -> (b: bool)
        ensures
            b == self@.contains_key(key@),
    {
        self.map.contains_key(key)
    }

    /// The user stored under `key`, if any.
    pub fn get(&self, key: &str) -> (res: Option<&User>)
        ensures
            match res {
                Some(u) => self@.contains_key(key@) && u@ == self@[key@],
                None => !self@.contains_key(key@),
            },
    {
        self.map.get(key)
    }

    /// Stores `user` under `key`, replacing any user stored there.
    pub fn insert(&mut self, key: String, user: User)
        requires
            old(self).wf(),
        ensures
            final(self).wf(),
            final(self)@ == old(self)@.insert(key@, user@),
            final(self).names() == if old(self)@.contains_key(key@) {
                old(self).names()
            } else {
                old(self).names().push(key@)
            },
    {
        let ghost old_self = *self;
        if !self.map.contains_key(key.as_str()) {
            let name = key.clone();
            self.names.push(name);
        }
        self.map.insert(key, user);
        assert(self@ =~= old_self@.insert(key@, user@));
        assert(self.names() =~= if old_self@.contains_key(key@) {
            old_self.names()
        } else {
            old_self.names().push(key@)
        });
        assert forall|k: Seq<char>| #[trigger] self.map@.contains_key(k) implies exists|i: int|
            0 <= i < self.names@.len() && self.names@[i]@ == k by {
            if k != key@ {
                assert(old_self.map@.contains_key(k));
                let i = choose|i: int| 0 <= i < old_self.names@.len() && old_self.names@[i]@ == k;
                assert(self.names@[i] == old_self.names@[i]);
            } else if !old_self.map@.contains_key(key@) {
                assert(self.names@[old_self.names@.len() as int]@ == k);
            } else {
                let i = choose|i: int| 0 <= i < old_self.names@.len() && old_self.names@[i]@ == k;
                assert(self.names@[i] == old_self.names@[i]);
            }
        }
    }

    /// Removes the user stored under `key`, if any.
    pub fn remove(&mut self, key: &str)
        requires
            old(self).wf(),
        ensures
            final(self).wf(),
            final(self)@ == old(self)@.remove(key@),
            final(self).names() == old(self).names().filter(other_than(key@)),
    {
        let ghost old_self = *self;
        let wanted = String::from_str(key);
        let mut i: usize = 0;
        while i < self.names.len()
            invariant
                *self == old_self,
                old_self.wf(),
                wanted@ == key@,
                i <= self.names@.len(),
                forall|j: int| 0 <= j < i ==> self.names@[j]@ != key@,
            ensures
                i < self.names@.len() ==> self.names@[i as int]@ == key@,
            decreases self.names@.len() - i,
        {
            if self.names[i] == wanted {
                break;
            }
            i = i + 1;
        }
        let ghost found = i < self.names@.len();
        if i < self.names.len() {
            self.names.remove(i);
        }
        self.map.remove(key);
        proof {
            let on = old_self.names@;
            let nn = self.names@;
            if found {
                assert(on[i as int]@ == key@);
                assert(nn =~= on.remove(i as int));
                assert forall|a: int, b: int| 0 <= a < b < nn.len() implies #[trigger] nn[a]@ != #[trigger] nn[b]@ by {
                    let a2 = if a < i { a } else { a + 1 };
                    let b2 = if b < i { b } else { b + 1 };
                    assert(nn[a] == on[a2] && nn[b] == on[b2]);
                    assert(on[a2]@ != on[b2]@);
                }
                assert forall|a: int| 0 <= a < nn.len() implies self.map@.contains_key(#[trigger] nn[a]@) by {
                    let a2 = if a < i { a } else { a + 1 };
                    assert(nn[a] == on[a2]);
                    if a2 < i {
                        assert(on[a2]@ != on[i as int]@);
                    } else {
                        assert(on[i as int]@ != on[a2]@);
                    }
                    assert(old_self.map@.contains_key(on[a2]@));
                }
                assert forall|k: Seq<char>| #[trigger] self.map@.contains_key(k) implies exists|a: int|
                    0 <= a < nn.len() && nn[a]@ == k by {
                    assert(old_self.map@.contains_key(k));
                    let j = choose|j: int| 0 <= j < on.len() && on[j]@ == k;
                    assert(j != i);
                    let a = if j < i { j } else { j - 1 };
                    assert(nn[a] == on[j]);
                }
            } else {
                assert(!old_self.map@.contains_key(key@));
                assert forall|a: int| 0 <= a < nn.len() implies self.map@.contains_key(#[trigger] nn[a]@) by {
                    assert(old_self.map@.contains_key(on[a]@));
                }
                assert forall|k: Seq<char>| #[trigger] self.map@.contains_key(k) implies exists|a: int|
                    0 <= a < nn.len() && nn[a]@ == k by {
                    assert(old_self.map@.contains_key(k));
                }
            }
        }
        assert(self@ =~= old_self@.remove(key@));
        proof {
            let ns = old_self.names();
            assert forall|a: int, b: int| 0 <= a < b < ns.len() implies ns[a] != ns[b] by {
                assert(old_self.names@[a]@ != old_self.names@[b]@);
            }
            if found {
                assert(ns[i as int] == key@);
                lemma_remove_unique_is_filter(ns, i as int, key@);
                assert(self.names() =~= ns.remove(i as int));
            } else {
                lemma_filter_absent(ns, key@);
                assert(self.names() =~= ns);
            }
        }
    }

    /// The name stored at position `i` in insertion order.
    pub fn name_at(&self, i: usize) -> (name: &String)
        requires
            self.wf(),
            i < self@.len(),
        ensures
            name@ == self.names()[i as int],
            self@.contains_key(name@),
    {
        proof {
            self.lemma_names_list_keys();
        }
        &self.names[i]
    }
}

/// Whether a name differs from `k`.
pub open spec fn other_than(k: Seq<char>) -> spec_fn(Seq<char>) -> bool {
    |n: Seq<char>| n != k
}

/// Dropping the one occurrence of `k` at index `i` is filtering `k` out.
proof fn lemma_remove_unique_is_filter(s: Seq<Seq<char>>, i: int, k: Seq<char>)
    requires
        0 <= i < s.len(),
        s[i] == k,
        forall|a: int, b: int| 0 <= a < b < s.len() ==> s[a] != s[b],
    ensures
        s.remove(i) == s.filter(other_than(k)),
    decreases s.len(),
{
    reveal(Seq::filter);
    if i == s.len() - 1 {
        assert(s.remove(i) =~= s.drop_last());
        assert forall|j: int| 0 <= j < s.drop_last().len() implies s.drop_last()[j] != k by {
            assert(s[j] != s[i]);
        }
        lemma_filter_absent(s.drop_last(), k);
    } else {
        let t = s.drop_last();
        assert forall|a: int, b: int| 0 <= a < b < t.len() implies t[a] != t[b] by {
            assert(s[a] != s[b]);
        }
        lemma_remove_unique_is_filter(t, i, k);
        assert(s.last() != k) by {
            assert(s[i] != s[s.len() - 1]);
        }
        assert(s.remove(i) =~= t.remove(i).push(s.last()));
    }
}

/// Filtering out a value that does not occur changes nothing.
proof fn lemma_filter_absent(s: Seq<Seq<char>>, k: Seq<char>)
    requires
        forall|j: int| 0 <= j < s.len() ==> s[j] != k,
    ensures
        s.filter(other_than(k)) == s,
    decreases s.len(),
{
    reveal(Seq::filter);
    if s.len() > 0 {
        lemma_filter_absent(s.drop_last(), k);
        assert(s.drop_last().push(s.last()) =~= s);
    }
}

impl View for UserStore {
    type V = Map<Seq<char>, UserView>;

    closed spec fn view(&self) -> Map<Seq<char>, UserView> {
        Map::new(|k: Seq<char>| self.map@.contains_key(k), |k: Seq<char>| self.map@[k]@)
    }
}

} // verus!
