use media_catalog::catalog::{Catalog, TaggedItem};
use media_catalog::keyset::{KeysetCursor, KeysetPage, KeysetPageCursor, PaginationMode};
use media_catalog::model::RepoError;
use media_catalog::offset::Cursor;
use media_catalog::query::{PlaylistQuery, TagQuery};
use media_catalog::ranking::KeysetDirection;

fn item(id: u128, tags: &[&str]) -> TaggedItem<&'static str> {
    TaggedItem {
        id,
        tags: tags.iter().map(|t| t.to_string()).collect(),
        title: String::new(),
        description: String::new(),
        payload: "payload",
    }
}

fn titled(id: u128, title: &str, description: &str, tags: &[&str]) -> TaggedItem<&'static str> {
    TaggedItem {
        id,
        tags: tags.iter().map(|t| t.to_string()).collect(),
        title: title.to_string(),
        description: description.to_string(),
        payload: "payload",
    }
}

fn catalog_of(items: Vec<TaggedItem<&'static str>>) -> Catalog<&'static str> {
    let mut catalog = Catalog::new();
    for entry in items {
        assert_eq!(catalog.insert(entry), Ok(()));
    }
    catalog
}

fn should(names: &[&str]) -> TagQuery {
    TagQuery {
        must: vec![],
        should: names.iter().map(|t| t.to_string()).collect(),
        must_not: vec![],
    }
}

fn ids(page: &KeysetPage<&TaggedItem<&'static str>>) -> Vec<u128> {
    page.items.iter().map(|entry| entry.id).collect()
}

fn four_items() -> Catalog<&'static str> {
    catalog_of(vec![item(3, &["y"]), item(5, &["x", "y"]), item(2, &[]), item(4, &["x"])])
}

fn first_page(limit: i64) -> KeysetCursor {
    KeysetCursor { limit: Some(limit), ..KeysetCursor::default() }
}

fn numbered_catalog(count: u128) -> Catalog<&'static str> {
    catalog_of((1..=count).map(|id| item(id, &[])).collect())
}

#[test]
fn two_pages_of_four_items() {
    let catalog = four_items();
    let query = should(&["x", "y"]);
    let page1 = catalog.search_keyset(&query, &first_page(2));
    assert_eq!(ids(&page1), vec![5, 4]);
    assert!(page1.has_next);
    assert!(!page1.has_prev);
    assert_eq!(page1.prev_cursor, None);
    assert_eq!(
        page1.next_cursor,
        Some(KeysetPageCursor {
            mode: PaginationMode::Keyset,
            direction: KeysetDirection::Next,
            last_id: 4,
            last_score: 1,
            limit: 2,
        })
    );
    let page2 = catalog.search_keyset(&query, &page1.next_cursor.unwrap().replay());
    assert_eq!(ids(&page2), vec![3, 2]);
    assert!(!page2.has_next);
    assert!(page2.has_prev);
    assert_eq!(page2.next_cursor, None);
    assert_eq!(
        page2.prev_cursor,
        Some(KeysetPageCursor {
            mode: PaginationMode::Keyset,
            direction: KeysetDirection::Prev,
            last_id: 3,
            last_score: 1,
            limit: 2,
        })
    );
}

#[test]
fn scores_of_four_items() {
    let catalog = four_items();
    let ranked = catalog.rank(&should(&["x", "y"]), "", KeysetDirection::Next);
    let keys: Vec<(u128, u64)> = ranked.iter().map(|e| (e.id, e.score)).collect();
    assert_eq!(keys, vec![(5, 2), (4, 1), (3, 1), (2, 0)]);
    let places: Vec<usize> = ranked.iter().map(|e| e.item).collect();
    assert_eq!(places, vec![1, 3, 0, 2]);
    for entry in &ranked {
        assert_eq!(catalog.item_at(entry.item).map(|found| found.id), Some(entry.id));
    }
    assert!(catalog.item_at(4).is_none());
}

#[test]
fn banned_item_is_on_no_page() {
    let catalog =
        catalog_of(vec![item(1, &["ok"]), item(2, &["banned"]), item(3, &["banned", "ok"])]);
    let query = TagQuery {
        must: vec![],
        should: vec!["banned".to_string()],
        must_not: vec!["banned".to_string()],
    };
    let page = catalog.search_keyset(&query, &first_page(10));
    assert_eq!(ids(&page), vec![1]);
    assert!(!page.has_next);
    let offset = catalog.search(&query, &Cursor { page: 0 });
    assert_eq!(offset.items.len(), 1);
    assert_eq!(offset.items[0].id, 1);
    assert_eq!(offset.total_pages, 1);
    let without = TagQuery { must: vec![], should: vec!["banned".to_string()], must_not: vec![] };
    assert_eq!(ids(&catalog.search_keyset(&without, &first_page(10))), vec![3, 2, 1]);
}

#[test]
fn backward_ranking_is_the_mirror() {
    let catalog = four_items();
    let query = should(&["x", "y"]);
    let forward: Vec<u128> =
        catalog.rank(&query, "", KeysetDirection::Next).iter().map(|e| e.id).collect();
    let mut backward: Vec<u128> =
        catalog.rank(&query, "", KeysetDirection::Prev).iter().map(|e| e.id).collect();
    assert_eq!(backward, vec![2, 3, 4, 5]);
    backward.reverse();
    assert_eq!(forward, backward);
}

#[test]
fn equal_scores_go_by_descending_identifier() {
    let catalog = catalog_of(vec![
        item(10, &["x"]),
        item(30, &["x"]),
        item(20, &["x"]),
        item(40, &[]),
        item(25, &["x", "y"]),
    ]);
    let page = catalog.search_keyset(&should(&["x", "y"]), &first_page(10));
    assert_eq!(ids(&page), vec![25, 30, 20, 10, 40]);
}

#[test]
fn walking_forward_leaves_no_gap_and_no_overlap() {
    let catalog = numbered_catalog(10);
    let mut seen: Vec<u128> = Vec::new();
    let mut cursor = first_page(3);
    loop {
        let page = catalog.get_all_keyset(&cursor);
        seen.extend(ids(&page));
        match page.next_cursor {
            Some(marker) => {
                assert!(page.has_next);
                cursor = marker.replay();
            }
            None => {
                assert!(!page.has_next);
                break;
            }
        }
    }
    assert_eq!(seen, vec![10, 9, 8, 7, 6, 5, 4, 3, 2, 1]);
}

#[test]
fn walking_back_returns_to_the_page_before() {
    let catalog = numbered_catalog(10);
    let page1 = catalog.get_all_keyset(&first_page(3));
    let page2 = catalog.get_all_keyset(&page1.next_cursor.unwrap().replay());
    let page3 = catalog.get_all_keyset(&page2.next_cursor.unwrap().replay());
    assert_eq!(ids(&page3), vec![4, 3, 2]);
    let back2 = catalog.get_all_keyset(&page3.prev_cursor.unwrap().replay());
    assert_eq!(ids(&back2), vec![7, 6, 5]);
    assert_eq!(ids(&back2), ids(&page2));
    assert!(back2.has_next);
    assert!(back2.has_prev);
    let back1 = catalog.get_all_keyset(&back2.prev_cursor.unwrap().replay());
    assert_eq!(ids(&back1), vec![10, 9, 8]);
    assert!(back1.has_next);
    assert!(!back1.has_prev);
    assert_eq!(back1.prev_cursor, None);
}

#[test]
fn walking_back_in_a_ranked_search() {
    let catalog = four_items();
    let query = should(&["x", "y"]);
    let page1 = catalog.search_keyset(&query, &first_page(1));
    let page2 = catalog.search_keyset(&query, &page1.next_cursor.unwrap().replay());
    let page3 = catalog.search_keyset(&query, &page2.next_cursor.unwrap().replay());
    assert_eq!(ids(&page1), vec![5]);
    assert_eq!(ids(&page2), vec![4]);
    assert_eq!(ids(&page3), vec![3]);
    let back = catalog.search_keyset(&query, &page3.prev_cursor.unwrap().replay());
    assert_eq!(ids(&back), vec![4]);
    let wide_cursor = page3.prev_cursor.unwrap().replay_with_limit(Some(5));
    let wider = catalog.search_keyset(&query, &wide_cursor);
    assert_eq!(ids(&wider), vec![5, 4]);
    assert!(!wider.has_prev);
    assert!(wider.has_next);
}

#[test]
fn exactly_limit_left_means_no_next_page() {
    let catalog = numbered_catalog(6);
    let page1 = catalog.get_all_keyset(&first_page(3));
    assert!(page1.has_next);
    let page2 = catalog.get_all_keyset(&page1.next_cursor.unwrap().replay());
    assert_eq!(ids(&page2), vec![3, 2, 1]);
    assert!(!page2.has_next);
    assert_eq!(page2.next_cursor, None);
    let all = catalog.get_all_keyset(&first_page(6));
    assert_eq!(all.items.len(), 6);
    assert!(!all.has_next);
    let most = catalog.get_all_keyset(&first_page(5));
    assert_eq!(most.items.len(), 5);
    assert!(most.has_next);
}

#[test]
fn same_request_gives_the_same_page() {
    let catalog = four_items();
    let query = should(&["x", "y"]);
    let cursor = KeysetCursor {
        mode: None,
        last_id: Some(4),
        last_score: Some(1),
        limit: Some(2),
        direction: Some(KeysetDirection::Next),
    };
    let once = catalog.search_keyset(&query, &cursor);
    let again = catalog.search_keyset(&query, &cursor);
    assert_eq!(ids(&once), ids(&again));
    assert_eq!(once.has_next, again.has_next);
    assert_eq!(once.has_prev, again.has_prev);
    assert_eq!(once.next_cursor, again.next_cursor);
    assert_eq!(once.prev_cursor, again.prev_cursor);
    let offset_once = catalog.search(&query, &Cursor { page: 0 });
    let offset_again = catalog.search(&query, &Cursor { page: 0 });
    let a: Vec<u128> = offset_once.items.iter().map(|e| e.id).collect();
    let b: Vec<u128> = offset_again.items.iter().map(|e| e.id).collect();
    assert_eq!(a, b);
    assert_eq!(offset_once.total_pages, offset_again.total_pages);
}

#[test]
fn cursor_of_a_deleted_item_still_works() {
    let mut catalog = numbered_catalog(6);
    let page1 = catalog.get_all_keyset(&first_page(2));
    assert_eq!(ids(&page1), vec![6, 5]);
    let marker = page1.next_cursor.unwrap();
    assert_eq!(catalog.delete(5), Ok(()));
    let page2 = catalog.get_all_keyset(&marker.replay());
    assert_eq!(ids(&page2), vec![4, 3]);
}

#[test]
fn unfiltered_walk_needs_the_identifier_only() {
    let catalog = numbered_catalog(5);
    let cursor = KeysetCursor { last_id: Some(4), limit: Some(2), ..KeysetCursor::default() };
    let page = catalog.get_all_keyset(&cursor);
    assert_eq!(ids(&page), vec![3, 2]);
    assert!(page.has_prev);
    assert!(page.has_next);
    assert_eq!(page.next_cursor.map(|c| c.last_score), Some(0));
    let ranked = catalog.search_keyset(&TagQuery::empty(), &cursor);
    assert_eq!(ids(&ranked), vec![5, 4]);
    assert!(!ranked.has_prev);
}

#[test]
fn unfiltered_walk_ignores_the_score_of_the_cursor() {
    let catalog = numbered_catalog(5);
    let cursor = KeysetCursor {
        last_id: Some(4),
        last_score: Some(17),
        limit: Some(2),
        ..KeysetCursor::default()
    };
    assert_eq!(ids(&catalog.get_all_keyset(&cursor)), vec![3, 2]);
    let back = KeysetCursor { direction: Some(KeysetDirection::Prev), ..cursor };
    let page = catalog.get_all_keyset(&back);
    assert_eq!(ids(&page), vec![5]);
    assert!(page.has_next);
    assert!(!page.has_prev);
}

#[test]
fn default_limit_is_thirty_items() {
    let catalog = numbered_catalog(40);
    let page = catalog.get_all_keyset(&KeysetCursor::default());
    assert_eq!(page.items.len(), 30);
    assert!(page.has_next);
    assert_eq!(page.next_cursor.map(|c| c.limit), Some(30));
    let capped = numbered_catalog(120).get_all_keyset(&first_page(1000)).items.len();
    assert_eq!(capped, 100);
}

#[test]
fn empty_catalog_gives_empty_pages() {
    let catalog: Catalog<&'static str> = Catalog::new();
    assert_eq!(catalog.len(), 0);
    let page = catalog.search_keyset(&should(&["x"]), &KeysetCursor::default());
    assert!(page.items.is_empty());
    assert!(!page.has_next && !page.has_prev);
    assert_eq!(page.next_cursor, None);
    let offset = catalog.get_all(&Cursor { page: 0 });
    assert!(offset.items.is_empty());
    assert_eq!(offset.total_pages, 0);
}

#[test]
fn offset_search_pages_through_the_ranking() {
    let mut items = Vec::new();
    for id in 1..=45u128 {
        items.push(item(id, if id % 2 == 0 { &["even"] } else { &["odd"] }));
    }
    let catalog = catalog_of(items);
    let query = should(&["even"]);
    let page0 = catalog.search(&query, &Cursor { page: 0 });
    assert_eq!(page0.total_pages, 3);
    let first: Vec<u128> = page0.items.iter().map(|e| e.id).collect();
    assert_eq!(first, (3..=22).rev().map(|k| k * 2).collect::<Vec<u128>>());
    let page1 = catalog.search(&query, &Cursor { page: 1 });
    let second: Vec<u128> = page1.items.iter().map(|e| e.id).collect();
    assert_eq!(second[0], 4);
    assert_eq!(second[1], 2);
    assert_eq!(second[2], 45);
    assert_eq!(second.len(), 20);
    let page2 = catalog.search(&query, &Cursor { page: 2 });
    let third: Vec<u128> = page2.items.iter().map(|e| e.id).collect();
    assert_eq!(third, vec![9, 7, 5, 3, 1]);
    let only_even = TagQuery { must: vec!["even".to_string()], should: vec![], must_not: vec![] };
    assert_eq!(catalog.search(&only_even, &Cursor { page: 0 }).total_pages, 2);
    assert_eq!(catalog.search(&only_even, &Cursor { page: 1 }).items.len(), 2);
}

#[test]
fn get_all_lists_latest_first() {
    let catalog = catalog_of(vec![item(3, &["a"]), item(9, &[]), item(1, &["b"])]);
    let page = catalog.get_all(&Cursor { page: 0 });
    let listed: Vec<u128> = page.items.iter().map(|e| e.id).collect();
    assert_eq!(listed, vec![9, 3, 1]);
    assert_eq!(page.total_pages, 1);
    assert_eq!(page.items[0].payload, "payload");
}

#[test]
fn text_search_ignores_letter_case() {
    let catalog = catalog_of(vec![
        titled(1, "Summer Mix", "", &["pop"]),
        titled(2, "winter", "A SUMMER memory", &["pop"]),
        titled(3, "Autumn", "leaves", &["pop"]),
        titled(4, "summer again", "", &["rock"]),
    ]);
    let query = PlaylistQuery {
        tags: TagQuery { must: vec!["pop".to_string()], should: vec![], must_not: vec![] },
        text: "suMMer".to_string(),
    };
    let page = catalog.search_text(&query, &KeysetCursor::default());
    assert_eq!(ids(&page), vec![2, 1]);
}

#[test]
fn text_search_trims_the_text() {
    let catalog = catalog_of(vec![titled(1, "Summer Mix", "", &[]), titled(2, "Winter", "", &[])]);
    let spaced = PlaylistQuery { tags: TagQuery::empty(), text: "  mix \t".to_string() };
    assert_eq!(ids(&catalog.search_text(&spaced, &KeysetCursor::default())), vec![1]);
    let blank = PlaylistQuery { tags: TagQuery::empty(), text: "   ".to_string() };
    assert_eq!(ids(&catalog.search_text(&blank, &KeysetCursor::default())), vec![2, 1]);
    let inner = PlaylistQuery { tags: TagQuery::empty(), text: "r m".to_string() };
    assert_eq!(ids(&catalog.search_text(&inner, &KeysetCursor::default())), vec![1]);
    let miss = PlaylistQuery { tags: TagQuery::empty(), text: "spring".to_string() };
    assert!(catalog.search_text(&miss, &KeysetCursor::default()).items.is_empty());
}

#[test]
fn text_does_not_add_to_the_score() {
    let catalog = catalog_of(vec![
        titled(1, "mix mix mix", "mix", &[]),
        titled(2, "mix", "", &["x"]),
    ]);
    let query = PlaylistQuery { tags: should(&["x"]), text: "mix".to_string() };
    let page = catalog.search_text(&query, &first_page(1));
    assert_eq!(ids(&page), vec![2]);
    assert_eq!(page.next_cursor.map(|c| c.last_score), Some(1));
}

#[test]
fn insert_refuses_a_taken_identifier() {
    let mut catalog = catalog_of(vec![item(1, &["a"])]);
    assert_eq!(catalog.insert(item(1, &["b"])), Err(RepoError::StorageError));
    assert_eq!(catalog.len(), 1);
    assert_eq!(catalog.get(1).map(|found| found.tags.clone()), Ok(vec!["a".to_string()]));
    assert_eq!(catalog.insert(item(2, &["b"])), Ok(()));
    assert_eq!(catalog.len(), 2);
}

#[test]
fn get_and_delete_report_missing_items() {
    let mut catalog = catalog_of(vec![item(1, &[]), item(2, &[]), item(3, &[])]);
    assert_eq!(catalog.get(2).map(|found| found.id), Ok(2));
    assert_eq!(catalog.get(7).map(|found| found.id), Err(RepoError::NotFound));
    assert_eq!(catalog.position_of(3), Some(2));
    assert_eq!(catalog.position_of(4), None);
    assert_eq!(catalog.delete(2), Ok(()));
    assert_eq!(catalog.delete(2), Err(RepoError::NotFound));
    assert_eq!(catalog.len(), 2);
    assert_eq!(catalog.get(2).map(|found| found.id), Err(RepoError::NotFound));
    assert_eq!(catalog.position_of(3), Some(1));
}
