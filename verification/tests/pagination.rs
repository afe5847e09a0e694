use cosmwasmhelpers::keyed::{assemble_page, KeyedPageRequest};
use cosmwasmhelpers::numbered::{NumberedPageRequest, NumberedPageResult};
use cosmwasmhelpers::pagination::{PageError, PageOrder};
use cosmwasmhelpers::store::OrderedStore;

fn store_with(keys: &[u64]) -> OrderedStore<u64> {
    let mut store = OrderedStore::new();
    for &k in keys {
        assert!(store.append(k, k * 10));
    }
    store
}

fn request(
    page: Option<u64>,
    limit: Option<u32>,
    order: Option<PageOrder>,
) -> KeyedPageRequest<u64> {
    KeyedPageRequest { page, limit, order }
}

#[test]
fn append_rejects_non_ascending_keys() {
    let mut store: OrderedStore<u64> = OrderedStore::new();
    assert!(store.append(5, 50));
    assert!(!store.append(5, 51));
    assert!(!store.append(3, 30));
    assert!(store.append(6, 60));
    assert_eq!(store.len(), 2);
}

#[test]
fn follows_next_cursors_exactly_once() {
    let keys = [1u64, 2, 3, 4, 5, 6, 7];
    let store = store_with(&keys);
    let mut cursor: Option<u64> = None;
    let mut seen: Vec<u64> = Vec::new();
    let mut pages: u32 = 0;
    loop {
        let page = request(cursor, Some(3), None)
            .custom_keys(10, 100, &store)
            .unwrap();
        seen.extend(page.data.iter());
        pages += 1;
        match page.next {
            Some(next) => cursor = Some(next),
            None => break,
        }
    }
    assert_eq!(seen, keys.to_vec());
    // ceil(7 / 3) pages
    assert_eq!(pages, 3);
}

#[test]
fn exact_division_needs_no_extra_page() {
    let store = store_with(&[1, 2, 3, 4]);
    let first = request(None, Some(2), None).custom_keys(10, 100, &store).unwrap();
    assert_eq!(first.data, vec![1, 2]);
    assert_eq!(first.next, Some(3));
    let second = request(Some(3), Some(2), None).custom_keys(10, 100, &store).unwrap();
    assert_eq!(second.data, vec![3, 4]);
    assert_eq!(second.next, None);
}

#[test]
fn single_entry_store() {
    let store = store_with(&[42]);
    let page = request(None, None, None).custom_keys(10, 100, &store).unwrap();
    assert_eq!(page.data, vec![42]);
    assert_eq!(page.page, 42);
    assert_eq!(page.next, None);
}

#[test]
fn page_shapes_along_the_walk() {
    let store = store_with(&[1, 2, 3, 4, 5, 6, 7]);

    let first = request(None, Some(3), None).custom_keys(10, 100, &store).unwrap();
    assert_eq!(first.data, vec![1, 2, 3]);
    assert_eq!(first.page, 1);
    assert_eq!(first.next, Some(4));

    // The cursor is inclusive: resuming at 4 returns 4 first, so nothing
    // is skipped and nothing comes back twice.
    let second = request(Some(4), Some(3), None).custom_keys(10, 100, &store).unwrap();
    assert_eq!(second.data, vec![4, 5, 6]);
    assert_eq!(second.page, 4);
    assert_eq!(second.next, Some(7));

    let last = request(Some(7), Some(3), None).custom_keys(10, 100, &store).unwrap();
    assert_eq!(last.data, vec![7]);
    assert_eq!(last.page, 7);
    assert_eq!(last.next, None);
}

#[test]
fn limit_zero_returns_nothing_but_looks_ahead() {
    let store = store_with(&[10, 20, 30]);

    let page = request(None, Some(0), None).custom_keys(10, 100, &store).unwrap();
    assert!(page.data.is_empty());
    assert_eq!(page.page, 10);
    assert_eq!(page.next, Some(10));

    let page = request(Some(25), Some(0), None).custom_keys(10, 100, &store).unwrap();
    assert!(page.data.is_empty());
    assert_eq!(page.next, Some(30));

    // Nothing at or after the cursor: no page exists at all.
    let err = request(Some(31), Some(0), None).custom_keys(10, 100, &store);
    assert_eq!(err, Err(PageError::EmptyPage));
}

#[test]
fn descending_visits_reverse_order() {
    let keys = [1u64, 2, 3, 4, 5];
    let store = store_with(&keys);

    let all = request(None, Some(10), Some(PageOrder::Descending))
        .custom_keys(10, 100, &store)
        .unwrap();
    assert_eq!(all.data, vec![5, 4, 3, 2, 1]);
    assert_eq!(all.page, 5);
    assert_eq!(all.next, None);

    // Page by page, with the same inclusive-bound lookahead semantics.
    let mut cursor: Option<u64> = None;
    let mut seen: Vec<u64> = Vec::new();
    loop {
        let page = request(cursor, Some(2), Some(PageOrder::Descending))
            .custom_keys(10, 100, &store)
            .unwrap();
        seen.extend(page.data.iter());
        match page.next {
            Some(next) => cursor = Some(next),
            None => break,
        }
    }
    let mut reversed = keys.to_vec();
    reversed.reverse();
    assert_eq!(seen, reversed);
}

#[test]
fn descending_cursor_is_inclusive_upper_bound() {
    let store = store_with(&[1, 2, 3, 4, 5]);
    let page = request(Some(3), Some(2), Some(PageOrder::Descending))
        .custom_keys(10, 100, &store)
        .unwrap();
    assert_eq!(page.data, vec![3, 2]);
    assert_eq!(page.page, 3);
    assert_eq!(page.next, Some(1));
}

#[test]
fn empty_ranges_are_reported() {
    let empty: OrderedStore<u64> = OrderedStore::new();
    assert_eq!(
        request(None, None, None).custom_keys(10, 100, &empty),
        Err(PageError::EmptyPage)
    );

    let store = store_with(&[4, 5, 6]);
    // Cursor past the end of the range.
    assert_eq!(
        request(Some(7), None, None).custom_keys(10, 100, &store),
        Err(PageError::EmptyPage)
    );
    // Descending, cursor below the smallest key.
    assert_eq!(
        request(Some(3), None, Some(PageOrder::Descending)).custom_keys(10, 100, &store),
        Err(PageError::EmptyPage)
    );
}

#[test]
fn limits_are_clamped() {
    let keys: Vec<u64> = (1..=30).collect();
    let store = store_with(&keys);

    // An oversized request is clamped to the maximum.
    let page = request(None, Some(1000), None).custom_keys(10, 20, &store).unwrap();
    assert_eq!(page.data.len(), 20);
    assert_eq!(page.next, Some(21));

    // An absent limit uses the default.
    let page = request(None, None, None).custom_keys(10, 20, &store).unwrap();
    assert_eq!(page.data.len(), 10);
    assert_eq!(page.next, Some(11));
}

#[test]
fn built_in_limits() {
    let keys: Vec<u64> = (1..=40).collect();
    let store = store_with(&keys);

    // keys() uses default 10, maximum 100.
    let page = request(None, Some(15), None).keys(&store).unwrap();
    assert_eq!(page.data.len(), 15);

    // query() uses the default limit as the maximum as well.
    let page = request(None, Some(15), None).query(&store, |k, _v| k).unwrap();
    assert_eq!(page.data.len(), 10);
    assert_eq!(page.next, Some(11));
}

#[test]
fn query_maps_entries() {
    let store = store_with(&[1, 2, 3]);
    let page = request(None, Some(2), None)
        .custom_query(10, 100, &store, |k, v| (k, v + 1))
        .unwrap();
    assert_eq!(page.data, vec![(1, 11), (2, 21)]);
    assert_eq!(page.page, 1);
    assert_eq!(page.next, Some(3));
}

#[test]
fn assemble_page_pops_the_lookahead_entry() {
    let fetched = vec![(1u64, 10u64), (2, 20), (3, 30)];
    let page = assemble_page(fetched, 2).unwrap();
    assert_eq!(page.data, vec![(1, 10), (2, 20)]);
    assert_eq!(page.page, 1);
    assert_eq!(page.next, Some(3));

    let fetched = vec![(1u64, 10u64), (2, 20)];
    let page = assemble_page(fetched, 2).unwrap();
    assert_eq!(page.data, vec![(1, 10), (2, 20)]);
    assert_eq!(page.next, None);

    assert_eq!(assemble_page::<u64>(vec![], 2), Err(PageError::EmptyPage));
}

#[test]
fn page_order_default_is_ascending() {
    assert_eq!(PageOrder::default(), PageOrder::Ascending);
}

#[test]
fn request_and_result_defaults() {
    let req: KeyedPageRequest<u64> = KeyedPageRequest::default();
    assert_eq!(req.page, None);
    assert_eq!(req.limit, None);
    assert_eq!(req.order, None);

    let req: NumberedPageRequest<u64> = NumberedPageRequest::default();
    assert_eq!(req.page, None);
    assert_eq!(req.limit, None);
    assert_eq!(req.order, None);

    let res: NumberedPageResult<u64> = NumberedPageResult::default();
    assert!(res.data.is_empty());
    assert_eq!(res.page, 0);
    assert_eq!(res.total, 0);

    let res: cosmwasmhelpers::keyed::KeyedPageResult<u64, u64> = Default::default();
    assert!(res.data.is_empty());
    assert_eq!(res.page, 0);
    assert_eq!(res.next, None);
}
