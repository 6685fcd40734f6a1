use media_catalog::catalog::{Catalog, TaggedItem};
use media_catalog::keyset::KeysetCursor;
use media_catalog::offset::Cursor;
use media_catalog::query::TagQuery;
use media_catalog::ranking::KeysetDirection;
use std::collections::BTreeSet;

const NAMES: [&str; 6] = ["a", "b", "c", "d", "e", "f"];

fn next_number(state: &mut u64) -> u64 {
    *state = state.wrapping_mul(6364136223846793005).wrapping_add(1442695040888963407);
    *state >> 33
}

fn some_names(state: &mut u64, at_most: u64) -> Vec<String> {
    let count = next_number(state) % (at_most + 1);
    (0..count).map(|_| NAMES[(next_number(state) % 6) as usize].to_string()).collect()
}

struct Shelf {
    catalog: Catalog<u32>,
    records: Vec<(u128, Vec<String>)>,
}

fn some_shelf(state: &mut u64, count: u128) -> Shelf {
    let mut catalog = Catalog::new();
    let mut records = Vec::new();
    for k in 0..count {
        let id = k * 7 + (next_number(state) % 7) as u128;
        let tags = some_names(state, 4);
        records.push((id, tags.clone()));
        let item = TaggedItem {
            id,
            tags,
            title: String::new(),
            description: String::new(),
            payload: k as u32,
        };
        assert!(catalog.insert(item).is_ok());
    }
    Shelf { catalog, records }
}

fn some_query(state: &mut u64) -> TagQuery {
    TagQuery {
        must: some_names(state, 1),
        should: some_names(state, 4),
        must_not: some_names(state, 1),
    }
}

fn plain_ranking(records: &[(u128, Vec<String>)], query: &TagQuery) -> Vec<(u64, u128)> {
    let must: BTreeSet<&str> = query.must.iter().map(|t| t.as_str()).collect();
    let should: BTreeSet<&str> = query.should.iter().map(|t| t.as_str()).collect();
    let must_not: BTreeSet<&str> = query.must_not.iter().map(|t| t.as_str()).collect();
    let mut ranked = Vec::new();
    for (id, names) in records {
        let tags: BTreeSet<&str> = names.iter().map(|t| t.as_str()).collect();
        if must.is_subset(&tags) && must_not.is_disjoint(&tags) {
            ranked.push((tags.intersection(&should).count() as u64, *id));
        }
    }
    ranked.sort_by(|a, b| b.cmp(a));
    ranked
}

#[test]
fn forward_walk_matches_a_plain_sort() {
    let mut state = 11;
    for _ in 0..60 {
        let count = (next_number(&mut state) % 25) as u128;
        let Shelf { catalog, records } = some_shelf(&mut state, count);
        let query = some_query(&mut state);
        let limit = 1 + (next_number(&mut state) % 6) as i64;
        let expected = plain_ranking(&records, &query);
        let mut walked = Vec::new();
        let mut cursor = KeysetCursor { limit: Some(limit), ..KeysetCursor::default() };
        loop {
            let page = catalog.search_keyset(&query, &cursor);
            assert!(page.items.len() as i64 <= limit);
            let before = walked.len();
            walked.extend(page.items.iter().map(|item| item.id));
            assert_eq!(page.has_next, walked.len() < expected.len());
            assert_eq!(page.has_prev, before > 0);
            match page.next_cursor {
                Some(marker) => {
                    assert_eq!((marker.last_score, marker.last_id), expected[walked.len() - 1]);
                    cursor = marker.replay();
                }
                None => break,
            }
        }
        let ids: Vec<u128> = expected.iter().map(|key| key.1).collect();
        assert_eq!(walked, ids);
    }
}

#[test]
fn backward_walk_matches_a_plain_sort() {
    let mut state = 23;
    for _ in 0..60 {
        let count = 1 + (next_number(&mut state) % 25) as u128;
        let Shelf { catalog, records } = some_shelf(&mut state, count);
        let query = some_query(&mut state);
        let limit = 1 + (next_number(&mut state) % 6) as i64;
        let expected = plain_ranking(&records, &query);
        let Some(last) = expected.last() else {
            continue;
        };
        let mut cursor = KeysetCursor {
            mode: None,
            last_id: Some(last.1),
            last_score: Some(last.0),
            limit: Some(limit),
            direction: Some(KeysetDirection::Prev),
        };
        let mut walked: Vec<u128> = Vec::new();
        loop {
            let page = catalog.search_keyset(&query, &cursor);
            let mut ids: Vec<u128> = page.items.iter().map(|item| item.id).collect();
            ids.extend(walked);
            walked = ids;
            assert!(page.has_next);
            assert_eq!(page.has_prev, walked.len() + 1 < expected.len());
            match page.prev_cursor {
                Some(marker) if page.has_prev => cursor = marker.replay(),
                _ => break,
            }
        }
        let ids: Vec<u128> = expected[..expected.len() - 1].iter().map(|key| key.1).collect();
        assert_eq!(walked, ids);
    }
}

#[test]
fn offset_pages_match_a_plain_sort() {
    let mut state = 37;
    for _ in 0..30 {
        let count = (next_number(&mut state) % 70) as u128;
        let Shelf { catalog, records } = some_shelf(&mut state, count);
        let query = some_query(&mut state);
        let expected = plain_ranking(&records, &query);
        let pages = (expected.len() + 19) / 20;
        for page_no in 0..pages + 2 {
            let page = catalog.search(&query, &Cursor { page: page_no as i64 });
            assert_eq!(page.total_pages, pages as i64);
            let ids: Vec<u128> = page.items.iter().map(|item| item.id).collect();
            let from = (page_no * 20).min(expected.len());
            let to = (page_no * 20 + 20).min(expected.len());
            let wanted: Vec<u128> = expected[from..to].iter().map(|key| key.1).collect();
            assert_eq!(ids, wanted);
        }
    }
}

#[test]
fn page_after_a_cursor_ignores_changes_before_it() {
    let mut state = 5;
    let mut catalog = some_shelf(&mut state, 20).catalog;
    let query = TagQuery { must: vec![], should: vec!["a".to_string()], must_not: vec![] };
    let start = KeysetCursor { limit: Some(4), ..KeysetCursor::default() };
    let first = catalog.search_keyset(&query, &start);
    let marker = first.next_cursor.unwrap();
    let shown: Vec<u128> = first.items.iter().map(|item| item.id).collect();
    let after: Vec<u128> =
        catalog.search_keyset(&query, &marker.replay()).items.iter().map(|item| item.id).collect();
    assert_eq!(catalog.delete(shown[1]), Ok(()));
    let newcomer = TaggedItem {
        id: 1000,
        tags: vec!["a".to_string()],
        title: String::new(),
        description: String::new(),
        payload: 0,
    };
    assert_eq!(catalog.insert(newcomer), Ok(()));
    let again: Vec<u128> =
        catalog.search_keyset(&query, &marker.replay()).items.iter().map(|item| item.id).collect();
    assert_eq!(after, again);
}
