//! An ordered key-value range source: the minimal capability the
//! paginator needs from a store, held as entries with strictly
//! ascending keys.

use vstd::prelude::*;
use crate::pagination::{
    first_above, first_at_or_above, lemma_first_above_unique, lemma_first_at_or_above_unique,
    strictly_ascending,
};

verus! {

/// An ordered map from `u64` keys to values, kept sorted by key with no
/// duplicates, supporting the range scans the pagination protocol needs.
#[derive(Clone, Debug, PartialEq)]
pub struct OrderedStore<V> {
    entries: Vec<(u64, V)>,
}

impl<V> View for OrderedStore<V> {
    type V = Seq<(u64, V)>;

    closed spec fn view(&self) -> Seq<(u64, V)> {
        self.entries@
    }
}

impl<V> OrderedStore<V> {
    /// The store's keys are strictly ascending.
    pub open spec fn wf(self) -> bool {
        strictly_ascending(self@)
    }

    /// An empty store.
    pub fn new() -> (s: Self)
        ensures
            s@ == Seq::<(u64, V)>::empty(),
            s.wf(),
    {
        let s = OrderedStore { entries: Vec::new() };
        proof {
            assert(s@ =~= Seq::<(u64, V)>::empty());
        }
        s
    }

    /// How many entries the store holds.
    pub fn len(&self) -> (n: usize)
        ensures
            n == self@.len(),
    {
        self.entries.len()
    }

    /// Appends an entry behind the largest key. Succeeds exactly when
    /// `key` is larger than every present key; otherwise the store is
    /// left unchanged.
    pub fn append(&mut self, key: u64, value: V) -> (ok: bool)
        requires
            old(self).wf(),
        ensures
            final(self).wf(),
            ok <==> (old(self)@.len() == 0 || old(self)@.last().0 < key),
            ok ==> final(self)@ == old(self)@.push((key, value)),
            !ok ==> final(self)@ == old(self)@,
    {
        let n = self.entries.len();
        if n == 0 || self.entries[n - 1].0 < key {
            self.entries.push((key, value));
            proof {
                assert forall|i: int, j: int| 0 <= i < j < self@.len() implies #[trigger] self@[i].0
                    < #[trigger] self@[j].0 by {
                    if j < self@.len() - 1 {
                        assert(old(self)@[i].0 < old(self)@[j].0);
                    } else if i < self@.len() - 1 {
                        if i < old(self)@.len() - 1 {
                            assert(old(self)@[i].0 < old(self)@[old(self)@.len() - 1].0);
                        }
                    }
                }
            }
            true
        } else {
            false
        }
    }

    /// The index where an ascending scan with inclusive lower bound `c`
    /// starts: the first entry with key at or above `c`.
    pub fn first_key_at_or_above(&self, c: u64) -> (j: usize)
        ensures
            j == first_at_or_above(self@, c),
    {
        let n = self.entries.len();
        let mut idx: usize = 0;
        while idx < n && self.entries[idx].0 < c
            invariant
                0 <= idx <= n,
                n == self@.len(),
                forall|i: int| 0 <= i < idx ==> #[trigger] self@[i].0 < c,
            decreases n - idx,
        {
            idx = idx + 1;
        }
        proof {
            lemma_first_at_or_above_unique(self@, c, idx as int);
        }
        idx
    }

    /// The index just past where a descending scan with inclusive upper
    /// bound `c` starts: the first entry with key strictly above `c`.
    pub fn first_key_above(&self, c: u64) -> (j: usize)
        ensures
            j == first_above(self@, c),
    {
        let n = self.entries.len();
        let mut idx: usize = 0;
        while idx < n && self.entries[idx].0 <= c
            invariant
                0 <= idx <= n,
                n == self@.len(),
                forall|i: int| 0 <= i < idx ==> #[trigger] self@[i].0 <= c,
            decreases n - idx,
        {
            idx = idx + 1;
        }
        proof {
            lemma_first_above_unique(self@, c, idx as int);
        }
        idx
    }
}

impl<V: Copy> OrderedStore<V> {
    /// Collects up to `want` entries forward from index `from`.
    pub fn collect_forward(&self, from: usize, want: u64) -> (out: Vec<(u64, V)>)
        requires
            from <= self@.len(),
        ensures
            self@.skip(from as int).len() <= want ==> out@ == self@.skip(from as int),
            self@.skip(from as int).len() > want ==> out@ == self@.skip(from as int).take(
                want as int,
            ),
    {
        let n = self.entries.len();
        let mut out: Vec<(u64, V)> = Vec::new();
        let mut idx: usize = from;
        while idx < n && (out.len() as u64) < want
            invariant
                from <= idx <= n,
                n == self@.len(),
                out@.len() == idx - from,
                out@.len() <= want,
                out@ == self@.subrange(from as int, idx as int),
            decreases n - idx,
        {
            let entry = self.entries[idx];
            out.push(entry);
            proof {
                assert(out@ =~= self@.subrange(from as int, idx + 1));
            }
            idx = idx + 1;
        }
        proof {
            if idx == n {
                assert(out@ =~= self@.skip(from as int));
            } else {
                assert(out@ =~= self@.skip(from as int).take(want as int));
            }
        }
        out
    }

    /// Collects up to `want` entries backward, starting just below index
    /// `upto`: the descending scan order.
    pub fn collect_backward(&self, upto: usize, want: u64) -> (out: Vec<(u64, V)>)
        requires
            upto <= self@.len(),
        ensures
            self@.take(upto as int).reverse().len() <= want ==> out@ == self@.take(
                upto as int,
            ).reverse(),
            self@.take(upto as int).reverse().len() > want ==> out@ == self@.take(
                upto as int,
            ).reverse().take(want as int),
    {
        let mut out: Vec<(u64, V)> = Vec::new();
        let mut idx: usize = upto;
        while idx > 0 && (out.len() as u64) < want
            invariant
                0 <= idx <= upto <= self@.len(),
                out@.len() == upto - idx,
                out@.len() <= want,
                forall|k: int| 0 <= k < out@.len() ==> #[trigger] out@[k] == self@[upto - 1 - k],
            decreases idx,
        {
            let entry = self.entries[idx - 1];
            out.push(entry);
            idx = idx - 1;
        }
        proof {
            let rev = self@.take(upto as int).reverse();
            assert(forall|k: int| 0 <= k < rev.len() ==> #[trigger] rev[k] == self@[upto - 1 - k]);
            if idx == 0 {
                assert(out@ =~= rev);
            } else {
                assert(out@ =~= rev.take(want as int));
            }
        }
        out
    }
}

} // verus!
