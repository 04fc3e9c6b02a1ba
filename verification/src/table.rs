//! A small association table from account identifiers to copyable values,
//! kept as a vector of pairs with pairwise-distinct keys. Both the share
//! ledger and the per-holder reward checkpoints are stored in one.

use vstd::prelude::*;

verus! {

/// The value bound to `k` in `s`, scanning front to back.
pub open spec fn seq_get<V>(s: Seq<(u64, V)>, k: u64) -> Option<V>
    decreases s.len(),
{
    if s.len() == 0 {
        None
    } else if s[0].0 == k {
        Some(s[0].1)
    } else {
        seq_get(s.drop_first(), k)
    }
}

/// No key occurs twice.
pub open spec fn keys_unique<V>(s: Seq<(u64, V)>) -> bool {
    forall|i: int, j: int|
        0 <= i < j < s.len() ==> (#[trigger] s[i]).0 != (#[trigger] s[j]).0
}

proof fn lemma_seq_get_found<V>(s: Seq<(u64, V)>, k: u64, i: int)
    requires
        0 <= i < s.len(),
        s[i].0 == k,
        forall|j: int| 0 <= j < i ==> (#[trigger] s[j]).0 != k,
    ensures
        seq_get(s, k) == Some(s[i].1),
    decreases i,
{
    if i > 0 {
        lemma_seq_get_found(s.drop_first(), k, i - 1);
    }
}

proof fn lemma_seq_get_absent<V>(s: Seq<(u64, V)>, k: u64)
    requires
        forall|j: int| 0 <= j < s.len() ==> (#[trigger] s[j]).0 != k,
    ensures
        seq_get(s, k) == None::<V>,
    decreases s.len(),
{
    if s.len() > 0 {
        lemma_seq_get_absent(s.drop_first(), k);
    }
}

/// An association table with pairwise-distinct keys.
pub struct Table<V> {
    pub entries: Vec<(u64, V)>,
}

impl<V: Copy> Table<V> {
    /// The value bound to `k`, if any.
    pub open spec fn spec_get(self, k: u64) -> Option<V> {
        seq_get(self.entries@, k)
    }

    /// The table's internal invariant: no key occurs twice.
    pub open spec fn wf(self) -> bool {
        keys_unique(self.entries@)
    }

    /// An empty table.
    pub fn new() -> (r: Table<V>)
        ensures
            r.wf(),
            r.entries@.len() == 0,
            forall|k: u64| r.spec_get(k) == None::<V>,
    {
        let t = Table { entries: Vec::new() };
        proof {
            assert forall|k: u64| t.spec_get(k) == None::<V> by {
                lemma_seq_get_absent(t.entries@, k);
            }
        }
        t
    }

    /// Looks the key up.
    pub fn get(&self, k: u64) -> (r: Option<V>)
        ensures
            r == self.spec_get(k),
    {
        let n = self.entries.len();
        let mut i: usize = 0;
        while i < n
            invariant
                n == self.entries.len(),
                i <= n,
                forall|j: int| 0 <= j < i ==> (#[trigger] self.entries@[j]).0 != k,
            decreases n - i,
        {
            if self.entries[i].0 == k {
                proof {
                    lemma_seq_get_found(self.entries@, k, i as int);
                }
                return Some(self.entries[i].1);
            }
            i += 1;
        }
        proof {
            lemma_seq_get_absent(self.entries@, k);
        }
        None
    }

    /// Binds `k` to `v`, leaving every other binding as it was.
    pub fn set(&mut self, k: u64, v: V)
        requires
            old(self).wf(),
        ensures
            final(self).wf(),
            final(self).spec_get(k) == Some(v),
            forall|k2: u64| k2 != k ==> final(self).spec_get(k2) == old(self).spec_get(k2),
            (old(self).spec_get(k) is Some && exists|i: int|
                0 <= i < old(self).entries@.len() && (#[trigger] old(self).entries@[i]).0 == k
                    && final(self).entries@ == old(self).entries@.update(i, (k, v))) || (old(
                self,
            ).spec_get(k) is None && final(self).entries@ == old(self).entries@.push((k, v))),
    {
        let ghost s0 = self.entries@;
        let n = self.entries.len();
        let mut i: usize = 0;
        while i < n
            invariant
                keys_unique(s0),
                old(self).entries@ == s0,
                self.entries@ == s0,
                n == s0.len(),
                i <= n,
                forall|j: int| 0 <= j < i ==> (#[trigger] s0[j]).0 != k,
            decreases n - i,
        {
            if self.entries[i].0 == k {
                self.entries[i] = (k, v);
                proof {
                    let s1 = self.entries@;
                    assert forall|a: int, b: int| 0 <= a < b < s1.len() implies (#[trigger] s1[a]).0
                        != (#[trigger] s1[b]).0 by {
                        assert(s0[a].0 != s0[b].0);
                        if a != i as int {
                            assert(s1[a] == s0[a]);
                        }
                        if b != i as int {
                            assert(s1[b] == s0[b]);
                        }
                    }
                    assert(keys_unique(s1));
                    lemma_seq_get_found(s0, k, i as int);
                    lemma_seq_get_found(s1, k, i as int);
                    assert(forall|j: int|
                        0 <= j < s0.len() && j != i as int ==> s0[j] == #[trigger] s1[j]);
                    assert forall|k2: u64| k2 != k implies seq_get(self.entries@, k2) == seq_get(
                        s0,
                        k2,
                    ) by {
                        lemma_seq_get_update_other(s0, s1, k2, i as int);
                    }
                }
                return ;
            }
            i += 1;
        }
        self.entries.push((k, v));
        proof {
            let s1 = self.entries@;
            assert forall|a: int, b: int| 0 <= a < b < s1.len() implies (#[trigger] s1[a]).0
                != (#[trigger] s1[b]).0 by {
                if b < s0.len() {
                    assert(s1[a] == s0[a] && s1[b] == s0[b]);
                } else {
                    assert(s1[b].0 == k && s1[a] == s0[a]);
                }
            }
            lemma_seq_get_absent(s0, k);
            lemma_seq_get_found(s1, k, s0.len() as int);
            assert forall|k2: u64| k2 != k implies seq_get(s1, k2) == seq_get(s0, k2) by {
                lemma_seq_get_push_other(s0, k, v, k2);
            }
        }
    }
}

/// With pairwise-distinct keys, the binding of `k` is the entry at any
/// index that carries `k`.
pub proof fn lemma_seq_get_unique_key<V>(s: Seq<(u64, V)>, k: u64, i: int)
    requires
        keys_unique(s),
        0 <= i < s.len(),
        s[i].0 == k,
    ensures
        seq_get(s, k) == Some(s[i].1),
{
    assert forall|j: int| 0 <= j < i implies (#[trigger] s[j]).0 != k by {
        assert(s[j].0 != s[i].0);
    }
    lemma_seq_get_found(s, k, i);
}

proof fn lemma_seq_get_update_other<V>(s0: Seq<(u64, V)>, s1: Seq<(u64, V)>, k2: u64, i: int)
    requires
        s0.len() == s1.len(),
        0 <= i < s0.len(),
        forall|j: int| 0 <= j < s0.len() && j != i ==> s0[j] == s1[j],
        s0[i].0 == s1[i].0,
        s1[i].0 != k2,
    ensures
        seq_get(s1, k2) == seq_get(s0, k2),
    decreases s0.len(),
{
    if s0.len() > 0 {
        if i == 0 {
            assert(s0.drop_first() =~= s1.drop_first());
        } else {
            assert(s0[0] == s1[0]);
            if s0[0].0 != k2 {
                lemma_seq_get_update_other(s0.drop_first(), s1.drop_first(), k2, i - 1);
            }
        }
    }
}

proof fn lemma_seq_get_push_other<V>(s0: Seq<(u64, V)>, k: u64, v: V, k2: u64)
    requires
        k2 != k,
    ensures
        seq_get(s0.push((k, v)), k2) == seq_get(s0, k2),
    decreases s0.len(),
{
    let s1 = s0.push((k, v));
    if s0.len() == 0 {
        assert(s1[0].0 == k);
        assert(s1.drop_first() =~= Seq::<(u64, V)>::empty());
    } else {
        assert(s1[0] == s0[0]);
        if s0[0].0 != k2 {
            assert(s1.drop_first() =~= s0.drop_first().push((k, v)));
            lemma_seq_get_push_other(s0.drop_first(), k, v, k2);
        }
    }
}

} // verus!
