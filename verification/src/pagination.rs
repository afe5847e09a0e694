//! The cursor pagination protocol: scan direction, bound construction,
//! over-fetch-by-one lookahead and next-cursor derivation, stated over a
//! mathematical model of an ordered sequence of keyed entries.

use vstd::prelude::*;
use vstd::arithmetic::div_mod::{lemma_fundamental_div_mod_converse, lemma_hoist_over_denominator};

verus! {

/// The direction of a page scan.
#[derive(Clone, Copy, Debug, PartialEq, Eq, Structural)]
pub enum PageOrder {
    Ascending,
    Descending,
}

impl Default for PageOrder {
    /// Scans run ascending unless asked otherwise.
    fn default() -> (r: Self)
        ensures
            r == PageOrder::Ascending,
    {
        PageOrder::Ascending
    }
}

/// Failures of a page query.
#[derive(Clone, Copy, Debug, PartialEq, Eq, Structural)]
pub enum PageError {
    /// No entry lies in the requested range, so there is no current-page
    /// key to report.
    EmptyPage,
}

/// Entries carry strictly ascending keys: every key occurs at most once
/// and the sequence is sorted.
pub open spec fn strictly_ascending<V>(entries: Seq<(u64, V)>) -> bool {
    forall|i: int, j: int|
        0 <= i < j < entries.len() ==> #[trigger] entries[i].0 < #[trigger] entries[j].0
}

/// The index of the first entry whose key is at least `c`, or the length
/// when there is none.
pub open spec fn first_at_or_above<V>(entries: Seq<(u64, V)>, c: u64) -> int
    decreases entries.len(),
{
    if entries.len() == 0 {
        0
    } else if entries[0].0 >= c {
        0
    } else {
        1 + first_at_or_above(entries.drop_first(), c)
    }
}

/// The index of the first entry whose key is strictly above `c`, or the
/// length when there is none.
pub open spec fn first_above<V>(entries: Seq<(u64, V)>, c: u64) -> int
    decreases entries.len(),
{
    if entries.len() == 0 {
        0
    } else if entries[0].0 > c {
        0
    } else {
        1 + first_above(entries.drop_first(), c)
    }
}

/// The full, unlimited scan sequence: everything an unbounded page query
/// would walk, in visit order. The cursor is an inclusive lower bound
/// ascending and an inclusive upper bound descending; an absent cursor
/// starts at the natural end of the range for the chosen direction.
pub open spec fn scan<V>(entries: Seq<(u64, V)>, cursor: Option<u64>, order: PageOrder) -> Seq<
    (u64, V),
> {
    match order {
        PageOrder::Ascending => match cursor {
            None => entries,
            Some(c) => entries.skip(first_at_or_above(entries, c)),
        },
        PageOrder::Descending => match cursor {
            None => entries.reverse(),
            Some(c) => entries.take(first_above(entries, c)).reverse(),
        },
    }
}

/// The requested limit, defaulted and clamped to the maximum.
pub open spec fn effective_limit(limit: Option<u32>, default_limit: u32, max_limit: u32) -> u32 {
    let requested = match limit {
        None => default_limit,
        Some(l) => l,
    };
    if requested <= max_limit {
        requested
    } else {
        max_limit
    }
}

/// The requested order, defaulted to ascending.
pub open spec fn effective_order(order: Option<PageOrder>) -> PageOrder {
    match order {
        None => PageOrder::Ascending,
        Some(o) => o,
    }
}

/// What a bounded fetch of `want` entries returns out of a scan
/// sequence: the whole scan when it is short enough, else its prefix.
pub open spec fn fetch_prefix<V>(s: Seq<(u64, V)>, want: int) -> Seq<(u64, V)> {
    if s.len() <= want {
        s
    } else {
        s.take(want)
    }
}

/// What the lookahead protocol makes of a scan sequence `s` and an
/// effective limit `l`: `None` when no entry is in range, otherwise the
/// page entries, the key of the first entry in range, and the resumption
/// cursor (the key of the first entry past the page, if one exists).
pub open spec fn page_of<V>(s: Seq<(u64, V)>, l: int) -> Option<(Seq<(u64, V)>, u64, Option<u64>)> {
    if s.len() == 0 {
        None
    } else if s.len() > l {
        Some((s.take(l), s[0].0, Some(s[l].0)))
    } else {
        Some((s, s[0].0, None))
    }
}

/// `first_at_or_above` points at the first key at or above `c`: all
/// earlier keys are below it, and it stays within the sequence.
pub proof fn lemma_first_at_or_above_bounds<V>(entries: Seq<(u64, V)>, c: u64)
    ensures
        0 <= first_at_or_above(entries, c) <= entries.len(),
        forall|i: int| 0 <= i < first_at_or_above(entries, c) ==> #[trigger] entries[i].0 < c,
        first_at_or_above(entries, c) < entries.len() ==> entries[first_at_or_above(entries, c)].0
            >= c,
    decreases entries.len(),
{
    if entries.len() == 0 {
    } else if entries[0].0 >= c {
    } else {
        lemma_first_at_or_above_bounds(entries.drop_first(), c);
        assert forall|i: int| 0 <= i < first_at_or_above(entries, c) implies #[trigger] entries[i].0
            < c by {
            if i > 0 {
                assert(entries.drop_first()[i - 1].0 < c);
            }
        }
    }
}

/// Any index that splits the keys into "below `c`" before it and "at or
/// above `c`" at it is exactly `first_at_or_above`.
pub proof fn lemma_first_at_or_above_unique<V>(entries: Seq<(u64, V)>, c: u64, j: int)
    requires
        0 <= j <= entries.len(),
        forall|i: int| 0 <= i < j ==> #[trigger] entries[i].0 < c,
        j < entries.len() ==> entries[j].0 >= c,
    ensures
        first_at_or_above(entries, c) == j,
    decreases entries.len(),
{
    if entries.len() == 0 {
    } else if entries[0].0 >= c {
        assert(j == 0);
    } else {
        assert(entries[0].0 < c);
        assert(j >= 1);
        assert forall|i: int| 0 <= i < j - 1 implies #[trigger] entries.drop_first()[i].0 < c by {
            assert(entries[i + 1].0 < c);
        }
        lemma_first_at_or_above_unique(entries.drop_first(), c, j - 1);
    }
}

/// The counterpart bounds for `first_above`.
pub proof fn lemma_first_above_bounds<V>(entries: Seq<(u64, V)>, c: u64)
    ensures
        0 <= first_above(entries, c) <= entries.len(),
        forall|i: int| 0 <= i < first_above(entries, c) ==> #[trigger] entries[i].0 <= c,
        first_above(entries, c) < entries.len() ==> entries[first_above(entries, c)].0 > c,
    decreases entries.len(),
{
    if entries.len() == 0 {
    } else if entries[0].0 > c {
    } else {
        lemma_first_above_bounds(entries.drop_first(), c);
        assert forall|i: int| 0 <= i < first_above(entries, c) implies #[trigger] entries[i].0
            <= c by {
            if i > 0 {
                assert(entries.drop_first()[i - 1].0 <= c);
            }
        }
    }
}

/// The counterpart uniqueness for `first_above`.
pub proof fn lemma_first_above_unique<V>(entries: Seq<(u64, V)>, c: u64, j: int)
    requires
        0 <= j <= entries.len(),
        forall|i: int| 0 <= i < j ==> #[trigger] entries[i].0 <= c,
        j < entries.len() ==> entries[j].0 > c,
    ensures
        first_above(entries, c) == j,
    decreases entries.len(),
{
    if entries.len() == 0 {
    } else if entries[0].0 > c {
        assert(j == 0);
    } else {
        assert(j >= 1);
        assert forall|i: int| 0 <= i < j - 1 implies #[trigger] entries.drop_first()[i].0 <= c by {
            assert(entries[i + 1].0 <= c);
        }
        lemma_first_above_unique(entries.drop_first(), c, j - 1);
    }
}

/// Over strictly ascending keys, the key of entry `m` resolves back to
/// position `m` (inclusive-bound resume lands on the entry itself).
pub proof fn lemma_member_resolves<V>(entries: Seq<(u64, V)>, m: int)
    requires
        strictly_ascending(entries),
        0 <= m < entries.len(),
    ensures
        first_at_or_above(entries, entries[m].0) == m,
        first_above(entries, entries[m].0) == m + 1,
{
    lemma_first_at_or_above_unique(entries, entries[m].0, m);
    lemma_first_above_unique(entries, entries[m].0, m + 1);
}

/// Resuming from a returned next-cursor continues the scan exactly where
/// the page left off: the entries seen from the new cursor are the old
/// scan with the page's entries removed, so no entry is ever returned
/// twice and none is skipped.
pub proof fn lemma_resume_exact<V>(entries: Seq<(u64, V)>, cursor: Option<u64>, order: PageOrder, l: int)
    requires
        strictly_ascending(entries),
        0 <= l,
        scan(entries, cursor, order).len() > l,
    ensures
        scan(entries, Some(scan(entries, cursor, order)[l].0), order) == scan(
            entries,
            cursor,
            order,
        ).skip(l),
{
    let s = scan(entries, cursor, order);
    match order {
        PageOrder::Ascending => {
            let j: int = match cursor {
                None => 0,
                Some(c) => first_at_or_above(entries, c),
            };
            if cursor is Some {
                lemma_first_at_or_above_bounds(entries, cursor->0);
            }
            assert(s =~= entries.skip(j));
            assert(s[l] == entries[j + l]);
            lemma_member_resolves(entries, j + l);
            assert(entries.skip(j + l) =~= entries.skip(j).skip(l));
        },
        PageOrder::Descending => {
            let t: int = match cursor {
                None => entries.len() as int,
                Some(c) => first_above(entries, c),
            };
            if cursor is Some {
                lemma_first_above_bounds(entries, cursor->0);
            }
            assert(s =~= entries.take(t).reverse());
            assert(s[l] == entries.take(t)[t - 1 - l]);
            assert(entries.take(t)[t - 1 - l] == entries[t - 1 - l]);
            lemma_member_resolves(entries, t - 1 - l);
            assert(first_above(entries, s[l].0) == t - l);
            assert(entries.take(t - l).reverse() =~= entries.take(t).reverse().skip(l)) by {
                assert forall|k: int| 0 <= k < t - l implies #[trigger] entries.take(t - l).reverse()[k]
                    == entries.take(t).reverse().skip(l)[k] by {
                    assert(entries.take(t - l).reverse()[k] == entries[t - l - 1 - k]);
                    assert(entries.take(t).reverse().skip(l)[k] == entries[t - 1 - l - k]);
                }
            }
        },
    }
}

/// A page followed by the scan its next-cursor describes reassembles
/// the original scan exactly: resuming re-returns nothing already seen
/// and skips nothing unseen.
pub proof fn lemma_page_then_resume<V>(
    entries: Seq<(u64, V)>,
    cursor: Option<u64>,
    order: PageOrder,
    l: int,
)
    requires
        strictly_ascending(entries),
        0 <= l,
        scan(entries, cursor, order).len() > l,
    ensures
        ({
            let s = scan(entries, cursor, order);
            let p = page_of(s, l)->0;
            &&& p.2 == Some(s[l].0)
            &&& p.0 + scan(entries, Some(s[l].0), order) == s
        }),
{
    let s = scan(entries, cursor, order);
    lemma_resume_exact(entries, cursor, order, l);
    assert(s.take(l) + s.skip(l) =~= s);
}

/// Every entry the protocol hands out when a caller starts at `s` and
/// keeps following next-cursors, in the order of appearance.
pub open spec fn visited<V>(s: Seq<(u64, V)>, l: int) -> Seq<(u64, V)>
    decreases s.len(),
{
    if l <= 0 || s.len() == 0 {
        Seq::empty()
    } else if s.len() <= l {
        s
    } else {
        s.take(l) + visited(s.skip(l), l)
    }
}

/// How many pages the protocol hands out over a scan of `s_len` entries
/// with pages of `l`.
pub open spec fn num_pages(s_len: int, l: int) -> int
    decreases s_len,
{
    if l <= 0 || s_len <= 0 {
        0
    } else if s_len <= l {
        1
    } else {
        1 + num_pages(s_len - l, l)
    }
}

/// Following next-cursors to the end visits exactly the scan sequence,
/// each entry once and in order, in ceiling(N / L) pages.
pub proof fn lemma_pages_cover_all<V>(s: Seq<(u64, V)>, l: int)
    requires
        l >= 1,
    ensures
        visited(s, l) == s,
        num_pages(s.len() as int, l) == (s.len() + l - 1) / l,
    decreases s.len(),
{
    let n = s.len() as int;
    if s.len() == 0 {
        assert(visited(s, l) =~= s);
        lemma_fundamental_div_mod_converse(n + l - 1, l, 0, l - 1);
    } else if s.len() <= l {
        lemma_fundamental_div_mod_converse(n + l - 1, l, 1, n - 1);
    } else {
        lemma_pages_cover_all(s.skip(l), l);
        assert(visited(s, l) =~= s);
        lemma_hoist_over_denominator(n - 1, 1, l as nat);
        assert((n - 1) / l + 1 == (n - 1 + l) / l);
    }
}

/// The full traversal of a store from the natural start: ascending it
/// hands out exactly the entries in key order, descending exactly the
/// same entries in the reverse order.
pub proof fn lemma_full_traversal<V>(entries: Seq<(u64, V)>, l: int)
    requires
        l >= 1,
    ensures
        visited(scan(entries, None, PageOrder::Ascending), l) == entries,
        visited(scan(entries, None, PageOrder::Descending), l) == entries.reverse(),
{
    lemma_pages_cover_all(entries, l);
    lemma_pages_cover_all(entries.reverse(), l);
}

/// A descending scan of the whole range walks exactly the reverse of the
/// ascending scan: the same key set, in the opposite order.
pub proof fn lemma_descending_reverses<V>(entries: Seq<(u64, V)>)
    ensures
        scan(entries, None, PageOrder::Descending) == scan(
            entries,
            None,
            PageOrder::Ascending,
        ).reverse(),
{
}

/// A limit of zero returns no entries, and the next-cursor says exactly
/// whether any entry lies at or after the cursor: it echoes the first
/// in-range key, or there is no page at all when nothing is in range.
pub proof fn lemma_limit_zero<V>(s: Seq<(u64, V)>)
    ensures
        s.len() == 0 ==> page_of(s, 0) is None,
        s.len() > 0 ==> page_of(s, 0) == Some(
            (Seq::<(u64, V)>::empty(), s[0].0, Some(s[0].0)),
        ),
{
    if s.len() > 0 {
        assert(s.take(0) =~= Seq::<(u64, V)>::empty());
    }
}

} // verus!
