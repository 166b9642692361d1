use wasm_reducer::item::rating_rank_of;
use wasm_reducer::ranking::bytes_before;
use wasm_reducer::{
    filter_by_playable, filter_by_tag, get_page_items, get_view_state, init_store, next_page,
    prev_page, set_items, set_page, sort_by_rating, sort_by_title, toggle_sort_order, Item,
    SortKey, SortOrder, ViewEngine,
};

fn rec(id: &str, title: &str, tags: &[&str], rating: f64, playable: bool) -> Item {
    Item {
        id: id.to_string(),
        title: title.to_string(),
        tags: tags.iter().map(|t| t.to_string()).collect(),
        rating_bits: rating.to_bits(),
        is_playable: playable,
    }
}

fn ids(items: &[Item]) -> Vec<String> {
    items.iter().map(|i| i.id.clone()).collect()
}

fn three_records() -> Vec<Item> {
    vec![
        rec("A", "Alpha", &["x"], 3.0, true),
        rec("B", "Bravo", &["y"], 1.0, false),
        rec("C", "Charlie", &["x"], 2.0, true),
    ]
}

fn all_pages(e: &mut ViewEngine) -> Vec<String> {
    let max = {
        let s = get_view_state(e);
        if s.filtered_count == 0 { 0 } else { (s.filtered_count - 1) / s.items_per_page }
    };
    let mut out = Vec::new();
    for p in 0..=max {
        set_page(e, p);
        out.extend(ids(&get_page_items(e)));
    }
    out
}

#[test]
fn new_store_is_empty() {
    let e = init_store(20);
    let s = get_view_state(&e);
    assert_eq!(s.filtered_count, 0);
    assert_eq!(s.total_items, 0);
    assert_eq!(s.current_page, 0);
    assert_eq!(s.items_per_page, 20);
    assert_eq!(s.filter_tag, None);
    assert_eq!(s.filter_playable, None);
    assert_eq!(s.sort_by, None);
    assert_eq!(s.sort_order, SortOrder::Ascending);
    assert!(get_page_items(&e).is_empty());
}

#[test]
fn scenario_rating_sort_and_pages() {
    let mut e = init_store(2);
    let s = set_items(&mut e, three_records());
    assert_eq!(s.filtered_count, 3);
    assert_eq!(s.current_page, 0);
    let s = sort_by_rating(&mut e);
    assert_eq!(s.sort_by, Some(SortKey::Rating));
    assert_eq!(ids(&get_page_items(&e)), vec!["B", "C"]);
    let s = next_page(&mut e);
    assert_eq!(s.current_page, 1);
    assert_eq!(ids(&get_page_items(&e)), vec!["A"]);
    let s = toggle_sort_order(&mut e);
    assert_eq!(s.sort_order, SortOrder::Descending);
    assert_eq!(s.current_page, 1);
    assert_eq!(ids(&get_page_items(&e)), vec!["B"]);
    set_page(&mut e, 0);
    assert_eq!(ids(&get_page_items(&e)), vec!["A", "C"]);
    set_page(&mut e, 1);
    let s = filter_by_tag(&mut e, Some("x".to_string()));
    assert_eq!(s.current_page, 0);
    assert_eq!(s.filtered_count, 2);
    assert_eq!(s.filter_tag, Some("x".to_string()));
    assert_eq!(ids(&get_page_items(&e)), vec!["A", "C"]);
}

#[test]
fn filter_by_playable_keeps_matching() {
    let mut e = init_store(10);
    set_items(&mut e, three_records());
    let s = filter_by_playable(&mut e, Some(false));
    assert_eq!(s.filtered_count, 1);
    assert_eq!(s.filter_playable, Some(false));
    assert_eq!(ids(&get_page_items(&e)), vec!["B"]);
    let s = filter_by_playable(&mut e, None);
    assert_eq!(s.filtered_count, 3);
    assert_eq!(ids(&get_page_items(&e)), vec!["A", "B", "C"]);
}

#[test]
fn filters_combine() {
    let mut e = init_store(10);
    set_items(&mut e, three_records());
    filter_by_tag(&mut e, Some("x".to_string()));
    let s = filter_by_playable(&mut e, Some(false));
    assert_eq!(s.filtered_count, 0);
    assert!(get_page_items(&e).is_empty());
}

#[test]
fn tag_match_is_exact() {
    let mut e = init_store(10);
    set_items(&mut e, vec![rec("a", "t", &["Rock"], 1.0, true), rec("b", "t", &["rock"], 1.0, true)]);
    let s = filter_by_tag(&mut e, Some("rock".to_string()));
    assert_eq!(s.filtered_count, 1);
    assert_eq!(ids(&get_page_items(&e)), vec!["b"]);
}

#[test]
fn absent_tag_gives_empty_view() {
    let mut e = init_store(2);
    set_items(&mut e, three_records());
    let s = filter_by_tag(&mut e, Some("zzz".to_string()));
    assert_eq!(s.filtered_count, 0);
    assert_eq!(s.total_items, 3);
    assert!(s.filtered_count <= s.total_items);
    assert!(get_page_items(&e).is_empty());
}

#[test]
fn sort_by_title_orders_bytes() {
    let mut e = init_store(10);
    set_items(
        &mut e,
        vec![
            rec("1", "beta", &[], 0.0, true),
            rec("2", "Beta", &[], 0.0, true),
            rec("3", "alpha", &[], 0.0, true),
            rec("4", "alp", &[], 0.0, true),
        ],
    );
    sort_by_title(&mut e);
    assert_eq!(ids(&get_page_items(&e)), vec!["2", "4", "3", "1"]);
    toggle_sort_order(&mut e);
    assert_eq!(ids(&get_page_items(&e)), vec!["1", "3", "4", "2"]);
}

#[test]
fn sort_is_stable_both_ways() {
    let mut e = init_store(10);
    set_items(
        &mut e,
        vec![
            rec("p", "t", &[], 2.0, true),
            rec("q", "t", &[], 1.0, true),
            rec("r", "t", &[], 2.0, true),
            rec("s", "t", &[], 1.0, true),
        ],
    );
    sort_by_rating(&mut e);
    assert_eq!(ids(&get_page_items(&e)), vec!["q", "s", "p", "r"]);
    toggle_sort_order(&mut e);
    assert_eq!(ids(&get_page_items(&e)), vec!["p", "r", "q", "s"]);
    sort_by_title(&mut e);
    assert_eq!(ids(&get_page_items(&e)), vec!["p", "q", "r", "s"]);
}

#[test]
fn rating_sort_handles_signs_and_zeroes() {
    let mut e = init_store(10);
    set_items(
        &mut e,
        vec![
            rec("pos", "t", &[], 0.5, true),
            rec("negzero", "t", &[], -0.0, true),
            rec("neg", "t", &[], -2.5, true),
            rec("zero", "t", &[], 0.0, true),
            rec("big", "t", &[], 1e300, true),
            rec("small", "t", &[], -1e-300, true),
        ],
    );
    sort_by_rating(&mut e);
    assert_eq!(ids(&get_page_items(&e)), vec!["neg", "small", "negzero", "zero", "pos", "big"]);
}

#[test]
fn toggle_without_key_keeps_insertion_order() {
    let mut e = init_store(10);
    set_items(&mut e, three_records());
    let s = toggle_sort_order(&mut e);
    assert_eq!(s.sort_by, None);
    assert_eq!(s.sort_order, SortOrder::Descending);
    assert_eq!(ids(&get_page_items(&e)), vec!["A", "B", "C"]);
    let s = toggle_sort_order(&mut e);
    assert_eq!(s.sort_order, SortOrder::Ascending);
}

#[test]
fn sort_change_keeps_page() {
    let mut e = init_store(1);
    set_items(&mut e, three_records());
    set_page(&mut e, 2);
    let s = sort_by_title(&mut e);
    assert_eq!(s.current_page, 2);
    assert_eq!(ids(&get_page_items(&e)), vec!["C"]);
}

#[test]
fn set_page_clamps() {
    let mut e = init_store(2);
    let s = set_page(&mut e, 5);
    assert_eq!(s.current_page, 0);
    set_items(&mut e, three_records());
    let s = set_page(&mut e, 1);
    assert_eq!(s.current_page, 1);
    let s = set_page(&mut e, usize::MAX);
    assert_eq!(s.current_page, 1);
    filter_by_tag(&mut e, Some("none".to_string()));
    let s = set_page(&mut e, 3);
    assert_eq!(s.current_page, 0);
}

#[test]
fn next_and_prev_saturate() {
    let mut e = init_store(2);
    set_items(&mut e, three_records());
    let s = prev_page(&mut e);
    assert_eq!(s.current_page, 0);
    next_page(&mut e);
    let s = next_page(&mut e);
    assert_eq!(s.current_page, 1);
    let s = prev_page(&mut e);
    assert_eq!(s.current_page, 0);
}

#[test]
fn pages_cover_view_once() {
    let mut e = init_store(3);
    let recs: Vec<Item> = (0..10)
        .map(|i| rec(&format!("r{}", i), "t", &[], ((i * 7) % 5) as f64, true))
        .collect();
    set_items(&mut e, recs);
    sort_by_rating(&mut e);
    let pages = all_pages(&mut e);
    assert_eq!(pages, vec!["r0", "r5", "r3", "r8", "r1", "r6", "r4", "r9", "r2", "r7"]);
}

#[test]
fn exact_page_multiple() {
    let mut e = init_store(2);
    set_items(&mut e, vec![rec("a", "t", &[], 1.0, true), rec("b", "t", &[], 1.0, true)]);
    let s = next_page(&mut e);
    assert_eq!(s.current_page, 0);
    assert_eq!(all_pages(&mut e), vec!["a", "b"]);
}

#[test]
fn set_items_resets_page_and_reports_counts() {
    let mut e = init_store(1);
    set_items(&mut e, three_records());
    set_page(&mut e, 2);
    let s = set_items(&mut e, vec![rec("z", "t", &[], 1.0, true), rec("y", "t", &[], 2.0, true)]);
    assert_eq!(s.current_page, 0);
    assert_eq!(s.total_items, 2);
    assert_eq!(s.filtered_count, 2);
}

#[test]
fn set_items_keeps_settings() {
    let mut e = init_store(5);
    filter_by_tag(&mut e, Some("x".to_string()));
    sort_by_rating(&mut e);
    toggle_sort_order(&mut e);
    let s = set_items(&mut e, three_records());
    assert_eq!(s.filtered_count, 2);
    assert_eq!(s.total_items, 3);
    assert_eq!(ids(&get_page_items(&e)), vec!["A", "C"]);
}

#[test]
fn read_calls_are_repeatable() {
    let mut e = init_store(2);
    set_items(&mut e, three_records());
    sort_by_title(&mut e);
    let a = get_view_state(&e);
    let b = get_view_state(&e);
    assert_eq!(a.filtered_count, b.filtered_count);
    assert_eq!(a.current_page, b.current_page);
    assert_eq!(a.sort_by, b.sort_by);
    let p = ids(&get_page_items(&e));
    let q = ids(&get_page_items(&e));
    assert_eq!(p, q);
    assert_eq!(p, vec!["A", "B"]);
}

#[test]
fn page_items_are_full_records() {
    let mut e = init_store(5);
    set_items(&mut e, vec![rec("id1", "Title", &["a", "b"], 4.25, false)]);
    let items = get_page_items(&e);
    assert_eq!(items.len(), 1);
    assert_eq!(items[0].id, "id1");
    assert_eq!(items[0].title, "Title");
    assert_eq!(items[0].tags, vec!["a".to_string(), "b".to_string()]);
    assert_eq!(f64::from_bits(items[0].rating_bits), 4.25);
    assert!(!items[0].is_playable);
}

#[test]
fn rating_rank_values() {
    assert_eq!(rating_rank_of(0.0f64.to_bits()), 0);
    assert_eq!(rating_rank_of((-0.0f64).to_bits()), 0);
    assert_eq!(rating_rank_of(1.0f64.to_bits()), 0x3FF0_0000_0000_0000);
    assert_eq!(rating_rank_of((-1.0f64).to_bits()), -0x3FF0_0000_0000_0000);
}

#[test]
fn byte_order_values() {
    assert!(bytes_before(b"", b"a"));
    assert!(!bytes_before(b"a", b""));
    assert!(!bytes_before(b"ab", b"ab"));
    assert!(bytes_before(b"ab", b"abc"));
    assert!(bytes_before(b"abc", b"abd"));
    assert!(bytes_before(b"Z", b"a"));
}
