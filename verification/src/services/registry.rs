//! Values kept under distinct text keys, in the order the keys were first
//! added: the open panel tabs, the live terminal sessions, the reusable SSH
//! connections.
use vstd::prelude::*;

use crate::text::{chars_eq, to_chars};

verus! {

/// Position of key `k` in `s`, or -1.
pub open spec fn key_index<T>(s: Seq<(Seq<char>, T)>, k: Seq<char>) -> int
    decreases s.len(),
{
    if s.len() == 0 {
        -1
    } else if s[0].0 == k {
        0
    } else {
        let j = key_index(s.drop_first(), k);
        if j < 0 {
            -1
        } else {
            j + 1
        }
    }
}

/// The value kept under `k`.
pub open spec fn lookup<T>(s: Seq<(Seq<char>, T)>, k: Seq<char>) -> Option<T> {
    let i = key_index(s, k);
    if 0 <= i < s.len() {
        Some(s[i].1)
    } else {
        None
    }
}

pub open spec fn distinct_keys<T>(s: Seq<(Seq<char>, T)>) -> bool {
    forall|i: int, j: int| 0 <= i < j < s.len() ==> s[i].0 != s[j].0
}

pub proof fn lemma_key_index<T>(s: Seq<(Seq<char>, T)>, k: Seq<char>, i: int)
    requires
        -1 <= i < s.len(),
        forall|j: int| 0 <= j < s.len() && (i < 0 || j < i) ==> s[j].0 != k,
        i >= 0 ==> s[i].0 == k,
    ensures
        key_index(s, k) == i,
    decreases s.len(),
{
    if s.len() > 0 && i != 0 {
        let t = s.drop_first();
        assert forall|j: int| 0 <= j < t.len() && (i - 1 < 0 || j < i - 1) implies t[j].0 != k by {
            assert(t[j] == s[j + 1]);
        }
        if i < 0 {
            lemma_key_index(t, k, -1);
        } else {
            lemma_key_index(t, k, i - 1);
        }
    }
}

/// In a list of distinct keys, a key at position `i` is found there.
pub proof fn lemma_key_index_distinct<T>(s: Seq<(Seq<char>, T)>, i: int)
    requires
        distinct_keys(s),
        0 <= i < s.len(),
    ensures
        key_index(s, s[i].0) == i,
{
    lemma_key_index(s, s[i].0, i);
}

pub proof fn lemma_key_absent<T>(s: Seq<(Seq<char>, T)>, k: Seq<char>)
    requires
        forall|j: int| 0 <= j < s.len() ==> s[j].0 != k,
    ensures
        key_index(s, k) == -1,
{
    lemma_key_index(s, k, -1);
}

pub proof fn lemma_key_index_range<T>(s: Seq<(Seq<char>, T)>, k: Seq<char>)
    ensures
        -1 <= key_index(s, k) < s.len(),
        key_index(s, k) >= 0 ==> s[key_index(s, k)].0 == k,
        key_index(s, k) < 0 ==> forall|j: int| 0 <= j < s.len() ==> s[j].0 != k,
    decreases s.len(),
{
    if s.len() > 0 && s[0].0 != k {
        let t = s.drop_first();
        lemma_key_index_range(t, k);
        assert forall|j: int| 0 <= j < s.len() && key_index(s, k) < 0 implies s[j].0 != k by {
            if j > 0 {
                assert(s[j] == t[j - 1]);
            }
        }
        if key_index(s, k) >= 0 {
            assert(s[key_index(s, k)] == t[key_index(t, k)]);
        }
    }
}

/// `s` with `v` kept under `k`: in place of the value kept there, or added
/// last.
pub open spec fn put<T>(s: Seq<(Seq<char>, T)>, k: Seq<char>, v: T) -> Seq<(Seq<char>, T)> {
    if lookup(s, k) is Some {
        s.update(key_index(s, k), (k, v))
    } else {
        s.push((k, v))
    }
}

/// `s` without the entry of `k` (unchanged if there is none).
pub open spec fn take_out<T>(s: Seq<(Seq<char>, T)>, k: Seq<char>) -> Seq<(Seq<char>, T)> {
    if lookup(s, k) is Some {
        s.remove(key_index(s, k))
    } else {
        s
    }
}

/// Keeping a value under a key keeps the keys distinct, finds the value
/// under that key, and finds the same as before under every other key.
pub proof fn lemma_put<T>(s: Seq<(Seq<char>, T)>, k: Seq<char>, v: T)
    requires
        distinct_keys(s),
    ensures
        distinct_keys(put(s, k, v)),
        lookup(put(s, k, v), k) == Some(v),
        forall|j: Seq<char>| j != k ==> #[trigger] lookup(put(s, k, v), j) == lookup(s, j),
{
    lemma_key_index_range(s, k);
    let s2 = put(s, k, v);
    let i = key_index(s, k);
    if i >= 0 {
        assert(forall|a: int| 0 <= a < s.len() ==> #[trigger] s2[a].0 == s[a].0);
        lemma_key_index_distinct(s2, i);
    } else {
        assert(forall|a: int| 0 <= a < s.len() ==> #[trigger] s2[a] == s[a]);
        lemma_key_index(s2, k, s.len() as int);
    }
    assert forall|j: Seq<char>| j != k implies #[trigger] lookup(s2, j) == lookup(s, j) by {
        lemma_key_index_range(s, j);
        let p = key_index(s, j);
        if p >= 0 {
            assert(s2[p] == s[p]);
            lemma_key_index_distinct(s2, p);
        } else {
            assert forall|a: int| 0 <= a < s2.len() implies s2[a].0 != j by {
                if a < s.len() {
                    assert(s2[a].0 == s[a].0);
                }
            }
            lemma_key_absent(s2, j);
        }
    }
}

/// Taking a key out keeps the keys distinct, finds nothing under that key,
/// and finds the same as before under every other key.
pub proof fn lemma_take_out<T>(s: Seq<(Seq<char>, T)>, k: Seq<char>)
    requires
        distinct_keys(s),
    ensures
        distinct_keys(take_out(s, k)),
        lookup(take_out(s, k), k) is None,
        forall|j: Seq<char>| j != k ==> #[trigger] lookup(take_out(s, k), j) == lookup(s, j),
{
    lemma_key_index_range(s, k);
    let s2 = take_out(s, k);
    let i = key_index(s, k);
    if i >= 0 {
        assert(forall|a: int| 0 <= a < s2.len() ==> #[trigger] s2[a] == (if a < i {
            s[a]
        } else {
            s[a + 1]
        }));
        assert forall|a: int| 0 <= a < s2.len() implies s2[a].0 != k by {
            if a < i {
                assert(s2[a] == s[a]);
            } else {
                assert(s2[a] == s[a + 1]);
            }
        }
        lemma_key_absent(s2, k);
        assert forall|j: Seq<char>| j != k implies #[trigger] lookup(s2, j) == lookup(s, j) by {
            lemma_key_index_range(s, j);
            let p = key_index(s, j);
            if p >= 0 {
                let q = if p < i {
                    p
                } else {
                    p - 1
                };
                assert(s2[q] == s[p]);
                lemma_key_index_distinct(s2, q);
            } else {
                assert forall|a: int| 0 <= a < s2.len() implies s2[a].0 != j by {
                    if a < i {
                        assert(s2[a] == s[a]);
                    } else {
                        assert(s2[a] == s[a + 1]);
                    }
                }
                lemma_key_absent(s2, j);
            }
        }
    }
}

pub struct Registry<T> {
    entries: Vec<(String, T)>,
}

impl<T> View for Registry<T> {
    type V = Seq<(Seq<char>, T)>;

    closed spec fn view(&self) -> Seq<(Seq<char>, T)> {
        self.entries@.map_values(|e: (String, T)| (e.0@, e.1))
    }
}

impl<T> Registry<T> {
    #[verifier::type_invariant]
    closed spec fn keys_distinct(self) -> bool {
        distinct_keys(self@)
    }

    pub fn new() -> (r: Self)
        ensures
            r@ == Seq::<(Seq<char>, T)>::empty(),
    {
        let r = Registry { entries: Vec::new() };
        assert(r@ =~= Seq::<(Seq<char>, T)>::empty());
        r
    }

    pub fn len(&self) -> (n: usize)
        ensures
            n == self@.len(),
    {
        self.entries.len()
    }

    /// Position of `key`.
    pub fn index_of(&self, key: &str) -> (r: Option<usize>)
        ensures
            match r {
                Some(i) => key_index(self@, key@) == i as int,
                None => key_index(self@, key@) == -1,
            },
    {
        let k = to_chars(key);
        let mut i: usize = 0;
        while i < self.entries.len()
            invariant
                i <= self.entries.len(),
                k@ == key@,
                forall|j: int| 0 <= j < i ==> self@[j].0 != key@,
            decreases self.entries.len() - i,
        {
            assert(self@[i as int].0 == self.entries@[i as int].0@);
            if chars_eq(&to_chars(self.entries[i].0.as_str()), &k) {
                proof {
                    lemma_key_index(self@, key@, i as int);
                }
                return Some(i);
            }
            i += 1;
        }
        proof {
            lemma_key_absent(self@, key@);
        }
        None
    }

    pub fn contains(&self, key: &str) -> (b: bool)
        ensures
            b == lookup(self@, key@) is Some,
    {
        proof {
            lemma_key_index_range(self@, key@);
        }
        self.index_of(key).is_some()
    }

    pub fn get(&self, key: &str) -> (r: Option<&T>)
        ensures
            match r {
                Some(v) => lookup(self@, key@) == Some(*v),
                None => lookup(self@, key@) is None,
            },
    {
        proof {
            lemma_key_index_range(self@, key@);
        }
        match self.index_of(key) {
            Some(i) => Some(&self.entries[i].1),
            None => None,
        }
    }

    pub fn value_at(&self, i: usize) -> (v: &T)
        requires
            i < self@.len(),
        ensures
            *v == self@[i as int].1,
    {
        &self.entries[i].1
    }

    /// The keys, in order.
    pub fn keys(&self) -> (r: Vec<String>)
        ensures
            r@.len() == self@.len(),
            forall|i: int| 0 <= i < r@.len() ==> #[trigger] r@[i]@ == self@[i].0,
            distinct_keys(self@),
    {
        proof {
            use_type_invariant(self);
        }
        let mut r: Vec<String> = Vec::new();
        let mut i: usize = 0;
        while i < self.entries.len()
            invariant
                i <= self.entries.len(),
                r@.len() == i,
                forall|j: int| 0 <= j < i ==> #[trigger] r@[j]@ == self@[j].0,
            decreases self.entries.len() - i,
        {
            r.push(self.entries[i].0.clone());
            i += 1;
        }
        r
    }

    /// Keep `value` under `key`: in place of the value kept there (which is
    /// returned), or added last.
    pub fn insert(&mut self, key: String, value: T) -> (r: Option<T>)
        ensures
            r == lookup(old(self)@, key@),
            r is Some ==> final(self)@ == old(self)@.update(
                key_index(old(self)@, key@),
                (key@, value),
            ),
            r is None ==> final(self)@ == old(self)@.push((key@, value)),
            lookup(final(self)@, key@) == Some(value),
            forall|k: Seq<char>| k != key@ ==> lookup(final(self)@, k) == lookup(old(self)@, k),
    {
        proof {
            use_type_invariant(&*self);
            lemma_key_index_range(self@, key@);
        }
        let ghost old_view = self@;
        let idx = self.index_of(key.as_str());
        let mut entries: Vec<(String, T)> = Vec::new();
        std::mem::swap(&mut entries, &mut self.entries);
        assert(entries@.map_values(|e: (String, T)| (e.0@, e.1)) == old_view);
        let ghost k = key@;
        let r = match idx {
            Some(i) => {
                let (_, old_value) = entries.remove(i);
                entries.insert(i, (key, value));
                Some(old_value)
            },
            None => {
                entries.push((key, value));
                None
            },
        };
        let ghost new_view = entries@.map_values(|e: (String, T)| (e.0@, e.1));
        proof {
            match idx {
                Some(i) => {
                    assert(new_view =~= old_view.update(i as int, (k, value)));
                },
                None => {
                    assert(new_view =~= old_view.push((k, value)));
                },
            }
            assert(distinct_keys(new_view));
            let ni = key_index(old_view, k);
            let p = if ni >= 0 {
                ni
            } else {
                old_view.len() as int
            };
            assert(new_view[p] == (k, value));
            lemma_key_index_distinct(new_view, p);
            assert forall|k2: Seq<char>| k2 != k implies lookup(new_view, k2) == lookup(
                old_view,
                k2,
            ) by {
                lemma_key_index_range(old_view, k2);
                let oi = key_index(old_view, k2);
                if oi >= 0 {
                    assert(new_view[oi] == old_view[oi]);
                    lemma_key_index_distinct(new_view, oi);
                } else {
                    assert forall|j: int| 0 <= j < new_view.len() implies new_view[j].0 != k2 by {
                        if j != p {
                            assert(new_view[j] == old_view[j]);
                        }
                    }
                    lemma_key_absent(new_view, k2);
                }
            }
        }
        self.entries = entries;
        r
    }

    /// Drop `key` and the value kept under it (which is returned).
    pub fn remove(&mut self, key: &str) -> (r: Option<T>)
        ensures
            r == lookup(old(self)@, key@),
            r is Some ==> final(self)@ == old(self)@.remove(key_index(old(self)@, key@)),
            r is None ==> final(self)@ == old(self)@,
            lookup(final(self)@, key@) is None,
            forall|k: Seq<char>| k != key@ ==> lookup(final(self)@, k) == lookup(old(self)@, k),
    {
        proof {
            use_type_invariant(&*self);
            lemma_key_index_range(self@, key@);
        }
        let ghost old_view = self@;
        match self.index_of(key) {
            None => None,
            Some(i) => {
                let mut entries: Vec<(String, T)> = Vec::new();
                std::mem::swap(&mut entries, &mut self.entries);
                assert(entries@.map_values(|e: (String, T)| (e.0@, e.1)) == old_view);
                let (_, v) = entries.remove(i);
                let ghost new_view = entries@.map_values(|e: (String, T)| (e.0@, e.1));
                proof {
                    assert(new_view =~= old_view.remove(i as int));
                    assert(distinct_keys(new_view));
                    assert forall|j: int| 0 <= j < new_view.len() implies new_view[j].0
                        != key@ by {
                        if j < i {
                            assert(new_view[j] == old_view[j]);
                        } else {
                            assert(new_view[j] == old_view[j + 1]);
                        }
                    }
                    lemma_key_absent(new_view, key@);
                    assert forall|k2: Seq<char>| k2 != key@ implies lookup(new_view, k2)
                        == lookup(old_view, k2) by {
                        lemma_key_index_range(old_view, k2);
                        let oi = key_index(old_view, k2);
                        if oi >= 0 {
                            let ni = if oi < i {
                                oi
                            } else {
                                oi - 1
                            };
                            assert(new_view[ni] == old_view[oi]);
                            lemma_key_index_distinct(new_view, ni);
                        } else {
                            assert forall|j: int| 0 <= j < new_view.len() implies new_view[j].0
                                != k2 by {
                                if j < i {
                                    assert(new_view[j] == old_view[j]);
                                } else {
                                    assert(new_view[j] == old_view[j + 1]);
                                }
                            }
                            lemma_key_absent(new_view, k2);
                        }
                    }
                }
                self.entries = entries;
                Some(v)
            },
        }
    }
}

} // verus!
