//! Keyed cursor pagination: a page request carrying an optional resume
//! cursor, and the query that turns it into one stable page of an
//! ordered store, with an over-fetch-by-one lookahead to detect whether
//! further pages exist.

use vstd::prelude::*;
use crate::pagination::{
    effective_limit, effective_order, fetch_prefix, lemma_first_above_bounds,
    lemma_first_at_or_above_bounds, page_of, scan, PageError, PageOrder,
};
use crate::store::OrderedStore;

verus! {

/// One page of a paginated query.
#[derive(Clone, Debug, PartialEq)]
pub struct KeyedPageResult<T, P> {
    /// The requested data.
    pub data: Vec<T>,
    /// The key of the first entry in range: the effective start of this
    /// page, echoed back even when the request had no cursor.
    pub page: P,
    /// The cursor to resume with, or `None` when the range is exhausted.
    pub next: Option<P>,
}

impl<T, P: Default> Default for KeyedPageResult<T, P> {
    /// The default result is an empty, final page at the key type's
    /// default position.
    fn default() -> (r: Self)
        ensures
            r.data@ == Seq::<T>::empty(),
            r.next is None,
    {
        let r = KeyedPageResult { data: Vec::new(), page: P::default(), next: None };
        proof {
            assert(r.data@ =~= Seq::<T>::empty());
        }
        r
    }
}

/// A request for one page of a paginated query.
#[derive(Clone, Copy, Debug, PartialEq)]
pub struct KeyedPageRequest<K> {
    /// Where to resume; `None` starts at the beginning of the range.
    pub page: Option<K>,
    /// How many items to return at most; `None` uses the caller default.
    pub limit: Option<u32>,
    /// The scan direction; `None` scans ascending.
    pub order: Option<PageOrder>,
}

impl<K> Default for KeyedPageRequest<K> {
    /// The default request starts at the beginning, ascending, with the
    /// caller's default limit.
    fn default() -> (r: Self)
        ensures
            r.page is None,
            r.limit is None,
            r.order is None,
    {
        KeyedPageRequest { page: None, limit: None, order: None }
    }
}

/// Fetches the first `limit + 1` entries of the scan that `cursor` and
/// `order` describe: the page body plus one lookahead entry.
fn fetch_entries<V: Copy>(
    store: &OrderedStore<V>,
    cursor: Option<u64>,
    order: PageOrder,
    limit: u32,
) -> (fetched: Vec<(u64, V)>)
    ensures
        fetched@ == fetch_prefix(scan(store@, cursor, order), limit + 1),
{
    let want: u64 = limit as u64 + 1;
    match order {
        PageOrder::Ascending => {
            let from: usize = match cursor {
                None => 0,
                Some(c) => {
                    proof {
                        lemma_first_at_or_above_bounds(store@, c);
                    }
                    store.first_key_at_or_above(c)
                },
            };
            let out = store.collect_forward(from, want);
            proof {
                if cursor is None {
                    assert(store@.skip(0) =~= store@);
                }
            }
            out
        },
        PageOrder::Descending => {
            let upto: usize = match cursor {
                None => store.len(),
                Some(c) => {
                    proof {
                        lemma_first_above_bounds(store@, c);
                    }
                    store.first_key_above(c)
                },
            };
            let out = store.collect_backward(upto, want);
            proof {
                if cursor is None {
                    assert(store@.take(store@.len() as int) =~= store@);
                }
            }
            out
        },
    }
}

/// Applies the lookahead step to an over-fetched window of at most
/// `limit + 1` entries: when the window is full, its last entry only
/// proves that a further page exists, so it is popped off and its key
/// becomes the next-cursor. The first fetched key is reported as the
/// current page. Fails exactly when the window is empty.
pub fn assemble_page<V: Copy>(fetched: Vec<(u64, V)>, limit: u32) -> (r: Result<
    KeyedPageResult<(u64, V), u64>,
    PageError,
>)
    requires
        fetched@.len() <= limit + 1,
    ensures
        fetched@.len() == 0 ==> r == Err::<KeyedPageResult<(u64, V), u64>, PageError>(
            PageError::EmptyPage,
        ),
        fetched@.len() > 0 ==> {
            &&& r is Ok
            &&& r->Ok_0.page == fetched@[0].0
            &&& if fetched@.len() == limit + 1 {
                r->Ok_0.data@ == fetched@.drop_last() && r->Ok_0.next == Some(fetched@.last().0)
            } else {
                r->Ok_0.data@ == fetched@ && r->Ok_0.next is None
            }
        },
{
    let mut window = fetched;
    let ghost orig = window@;
    if window.len() == 0 {
        return Err(PageError::EmptyPage);
    }
    let page_key = window[0].0;
    let next: Option<u64> = if window.len() as u64 == limit as u64 + 1 {
        match window.pop() {
            Some(entry) => {
                proof {
                    assert(window@ =~= orig.drop_last());
                }
                Some(entry.0)
            },
            None => None,
        }
    } else {
        None
    };
    Ok(KeyedPageResult { data: window, page: page_key, next })
}

impl KeyedPageRequest<u64> {
    /// The page size used when a request names none.
    pub fn default_limit() -> (r: u32)
        ensures
            r == 10,
    {
        10
    }

    /// The largest page size a request is allowed to ask for.
    pub fn max_limit() -> (r: u32)
        ensures
            r == 100,
    {
        100
    }

    /// Answers this request with a page of keys from `store`: clamps the
    /// limit, scans from the inclusive cursor bound in the requested
    /// order, and derives the next-cursor from one entry of lookahead.
    /// Fails exactly when no entry lies in the requested range.
    pub fn custom_keys<V: Copy>(
        self,
        default_limit: u32,
        max_limit: u32,
        store: &OrderedStore<V>,
    ) -> (r: Result<KeyedPageResult<u64, u64>, PageError>)
        ensures
            ({
                let s = scan(store@, self.page, effective_order(self.order));
                let l = effective_limit(self.limit, default_limit, max_limit) as int;
                match page_of(s, l) {
                    None => r == Err::<KeyedPageResult<u64, u64>, PageError>(PageError::EmptyPage),
                    Some(p) => {
                        &&& r is Ok
                        &&& r->Ok_0.data@ == p.0.map_values(|e: (u64, V)| e.0)
                        &&& r->Ok_0.page == p.1
                        &&& r->Ok_0.next == p.2
                    },
                }
            }),
    {
        let limit = self.effective_limit_value(default_limit, max_limit);
        let order = self.effective_order_value();
        let ghost s = scan(store@, self.page, effective_order(self.order));

        let fetched = fetch_entries(store, self.page, order, limit);
        let assembled = match assemble_page(fetched, limit) {
            Ok(page) => page,
            Err(e) => {
                return Err(e);
            },
        };
        proof {
            lemma_window_matches_page(s, limit);
        }

        let entries = assembled.data;
        let mut data: Vec<u64> = Vec::new();
        let mut i: usize = 0;
        while i < entries.len()
            invariant
                0 <= i <= entries@.len(),
                data@.len() == i,
                forall|k: int| 0 <= k < i ==> #[trigger] data@[k] == entries@[k].0,
            decreases entries@.len() - i,
        {
            let entry = entries[i];
            data.push(entry.0);
            i = i + 1;
        }
        proof {
            assert(data@ =~= entries@.map_values(|e: (u64, V)| e.0));
        }

        Ok(KeyedPageResult { data, page: assembled.page, next: assembled.next })
    }

    /// Answers this request with a page of mapped items from `store`:
    /// the same protocol as `custom_keys`, with every returned entry
    /// projected through `mapper`.
    pub fn custom_query<V: Copy, R, F: Fn(u64, V) -> R>(
        self,
        default_limit: u32,
        max_limit: u32,
        store: &OrderedStore<V>,
        mapper: F,
    ) -> (r: Result<KeyedPageResult<R, u64>, PageError>)
        requires
            forall|k: u64, v: V| #[trigger] mapper.requires((k, v)),
        ensures
            ({
                let s = scan(store@, self.page, effective_order(self.order));
                let l = effective_limit(self.limit, default_limit, max_limit) as int;
                match page_of(s, l) {
                    None => r == Err::<KeyedPageResult<R, u64>, PageError>(PageError::EmptyPage),
                    Some(p) => {
                        &&& r is Ok
                        &&& r->Ok_0.data@.len() == p.0.len()
                        &&& forall|i: int|
                            0 <= i < p.0.len() ==> mapper.ensures(
                                (p.0[i].0, p.0[i].1),
                                #[trigger] r->Ok_0.data@[i],
                            )
                        &&& r->Ok_0.page == p.1
                        &&& r->Ok_0.next == p.2
                    },
                }
            }),
    {
        let limit = self.effective_limit_value(default_limit, max_limit);
        let order = self.effective_order_value();
        let ghost s = scan(store@, self.page, effective_order(self.order));

        let fetched = fetch_entries(store, self.page, order, limit);
        let assembled = match assemble_page(fetched, limit) {
            Ok(page) => page,
            Err(e) => {
                return Err(e);
            },
        };
        proof {
            lemma_window_matches_page(s, limit);
        }

        let entries = assembled.data;
        let mut data: Vec<R> = Vec::new();
        let mut i: usize = 0;
        while i < entries.len()
            invariant
                0 <= i <= entries@.len(),
                data@.len() == i,
                forall|k: u64, v: V| #[trigger] mapper.requires((k, v)),
                forall|k: int|
                    0 <= k < i ==> mapper.ensures(
                        (entries@[k].0, entries@[k].1),
                        #[trigger] data@[k],
                    ),
            decreases entries@.len() - i,
        {
            let entry = entries[i];
            let item = mapper(entry.0, entry.1);
            data.push(item);
            i = i + 1;
        }

        Ok(KeyedPageResult { data, page: assembled.page, next: assembled.next })
    }

    /// Answers this request with the built-in page sizes, projecting
    /// every entry through `mapper`. The built-in default limit serves
    /// as the maximum here as well.
    pub fn query<V: Copy, R, F: Fn(u64, V) -> R>(
        self,
        store: &OrderedStore<V>,
        mapper: F,
    ) -> (r: Result<KeyedPageResult<R, u64>, PageError>)
        requires
            forall|k: u64, v: V| #[trigger] mapper.requires((k, v)),
        ensures
            ({
                let s = scan(store@, self.page, effective_order(self.order));
                let l = effective_limit(self.limit, 10, 10) as int;
                match page_of(s, l) {
                    None => r == Err::<KeyedPageResult<R, u64>, PageError>(PageError::EmptyPage),
                    Some(p) => {
                        &&& r is Ok
                        &&& r->Ok_0.data@.len() == p.0.len()
                        &&& forall|i: int|
                            0 <= i < p.0.len() ==> mapper.ensures(
                                (p.0[i].0, p.0[i].1),
                                #[trigger] r->Ok_0.data@[i],
                            )
                        &&& r->Ok_0.page == p.1
                        &&& r->Ok_0.next == p.2
                    },
                }
            }),
    {
        self.custom_query(Self::default_limit(), Self::default_limit(), store, mapper)
    }

    /// Answers this request with a page of keys under the built-in
    /// default and maximum page sizes.
    pub fn keys<V: Copy>(self, store: &OrderedStore<V>) -> (r: Result<
        KeyedPageResult<u64, u64>,
        PageError,
    >)
        ensures
            ({
                let s = scan(store@, self.page, effective_order(self.order));
                let l = effective_limit(self.limit, 10, 100) as int;
                match page_of(s, l) {
                    None => r == Err::<KeyedPageResult<u64, u64>, PageError>(PageError::EmptyPage),
                    Some(p) => {
                        &&& r is Ok
                        &&& r->Ok_0.data@ == p.0.map_values(|e: (u64, V)| e.0)
                        &&& r->Ok_0.page == p.1
                        &&& r->Ok_0.next == p.2
                    },
                }
            }),
    {
        self.custom_keys(Self::default_limit(), Self::max_limit(), store)
    }

    /// The requested limit, defaulted and clamped.
    pub fn effective_limit_value(&self, default_limit: u32, max_limit: u32) -> (r: u32)
        ensures
            r == effective_limit(self.limit, default_limit, max_limit),
    {
        let requested = match self.limit {
            None => default_limit,
            Some(l) => l,
        };
        if requested <= max_limit {
            requested
        } else {
            max_limit
        }
    }

    /// The requested order, defaulted to ascending.
    pub fn effective_order_value(&self) -> (r: PageOrder)
        ensures
            r == effective_order(self.order),
    {
        match self.order {
            None => PageOrder::Ascending,
            Some(o) => o,
        }
    }
}

/// A fetched window of `l + 1` entries out of the scan `s` assembles
/// into exactly the page that the protocol specifies of `s` and `l`.
proof fn lemma_window_matches_page<V>(s: Seq<(u64, V)>, limit: u32)
    ensures
        ({
            let w = fetch_prefix(s, limit + 1);
            let l = limit as int;
            match page_of(s, l) {
                None => w.len() == 0,
                Some(p) => {
                    &&& w.len() > 0
                    &&& w[0].0 == p.1
                    &&& if w.len() == l + 1 {
                        w.drop_last() == p.0 && Some(w.last().0) == p.2
                    } else {
                        w == p.0 && p.2 is None
                    }
                },
            }
        }),
{
    let w = fetch_prefix(s, limit + 1);
    let l = limit as int;
    if s.len() == 0 {
    } else if s.len() > l {
        assert(w =~= s.take(l + 1));
        assert(w.drop_last() =~= s.take(l));
        assert(w.last() == s[l]);
    } else {
        assert(w =~= s);
    }
}

} // verus!
