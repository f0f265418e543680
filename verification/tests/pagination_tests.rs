//! Cursor pagination over a partition: boundary flags, cursor walks,
//! first/last truncation, and the exhaustive fetch.

use homeapi::condition::Condition;
use homeapi::engine::{get_all_items, get_all_items_paged, page};
use homeapi::item::{Attr, Item};
use homeapi::store::Table;

fn s(x: &str) -> String {
    String::from(x)
}

fn row(pk: &str, sk: &str) -> Item {
    Item { pk: s(pk), sk: s(sk), attrs: vec![(s("place"), Attr::S(s("x")))] }
}

fn table_with(pk: &str, sks: &[&str]) -> Table {
    let mut t = Table::new();
    for sk in sks {
        t.put(row(pk, sk));
    }
    t
}

fn numbered_table(pk: &str, n: usize) -> (Table, Vec<String>) {
    let mut t = Table::new();
    let mut sks = Vec::new();
    for i in 0..n {
        let sk = format!("TS#2023-01-01T00:{:02}:{:02}Z", i / 60, i % 60);
        t.put(row(pk, &sk));
        sks.push(sk);
    }
    (t, sks)
}

fn page_sks(p: &homeapi::engine::Page) -> Vec<String> {
    p.items.iter().map(|it| it.sk.clone()).collect()
}

#[test]
fn first_page_flags() {
    let (t, sks) = numbered_table("dev", 5);
    for k in 1..=6usize {
        let p = page(&t, "dev", None, None, None, Some(k), None);
        let want: Vec<String> = sks.iter().take(k.min(5)).cloned().collect();
        assert_eq!(page_sks(&p), want);
        assert_eq!(p.has_next_page, k < 5, "first={k}");
        assert!(!p.has_previous_page);
    }
}

#[test]
fn last_page_flags() {
    let (t, sks) = numbered_table("dev", 5);
    for k in 1..=6usize {
        let p = page(&t, "dev", None, None, None, None, Some(k));
        let start = 5usize.saturating_sub(k);
        let want: Vec<String> = sks[start..].to_vec();
        assert_eq!(page_sks(&p), want, "last={k}");
        assert_eq!(p.has_previous_page, k < 5, "last={k}");
        assert!(!p.has_next_page);
    }
}

#[test]
fn forward_walk_covers_everything_once() {
    let n = 11usize;
    let (t, sks) = numbered_table("dev", n);
    for k in 1..=n {
        let mut seen: Vec<String> = Vec::new();
        let mut cursor: Option<String> = None;
        let mut pages = 0usize;
        loop {
            let p = page(&t, "dev", None, cursor.as_deref(), None, Some(k), None);
            seen.extend(page_sks(&p));
            pages += 1;
            match p.next_cursor {
                Some(c) => cursor = Some(c),
                None => break,
            }
            assert!(pages <= n + 1, "walk did not terminate for k={k}");
        }
        assert_eq!(seen, sks, "walk with page size {k}");
        assert_eq!(pages, n.div_ceil(k));
    }
}

#[test]
fn first_and_last_truncates_to_tail() {
    let t = table_with("p", &["a", "b", "c", "d", "e"]);
    let p = page(&t, "p", None, None, None, Some(3), Some(2));
    // first 3 = [a, b, c]; the tail 2 of that = [b, c], still ascending
    assert_eq!(page_sks(&p), vec![s("b"), s("c")]);
    assert!(p.has_next_page);
}

#[test]
fn first_smaller_than_last_keeps_forward_window() {
    let t = table_with("p", &["a", "b", "c", "d", "e"]);
    let p = page(&t, "p", None, None, None, Some(2), Some(3));
    // first takes precedence; the window is never widened to last
    assert_eq!(page_sks(&p), vec![s("a"), s("b")]);
}

#[test]
fn backward_walk_with_before_cursor() {
    let t = table_with("p", &["a", "b", "c", "d", "e"]);
    let p1 = page(&t, "p", None, None, None, None, Some(2));
    assert_eq!(page_sks(&p1), vec![s("d"), s("e")]);
    let c = p1.next_cursor.clone().unwrap();
    assert_eq!(c, "d");
    let p2 = page(&t, "p", None, None, Some(&c), None, Some(2));
    assert_eq!(page_sks(&p2), vec![s("b"), s("c")]);
    assert!(p2.has_previous_page);
    let c2 = p2.next_cursor.clone().unwrap();
    let p3 = page(&t, "p", None, None, Some(&c2), None, Some(2));
    assert_eq!(page_sks(&p3), vec![s("a")]);
    assert!(!p3.has_previous_page);
    assert!(p3.next_cursor.is_none());
}

#[test]
fn exhaustive_fetch_is_complete_for_any_page_size() {
    let n = 57usize;
    let (t, sks) = numbered_table("dev", n);
    for page_size in [1usize, 7, 25, 56, 57, 100] {
        let items = get_all_items_paged(&t, "dev", None, Some(page_size));
        let got: Vec<String> = items.iter().map(|it| it.sk.clone()).collect();
        assert_eq!(got, sks, "page size {page_size}");
    }
    let items = get_all_items(&t, "dev", None);
    assert_eq!(items.len(), n);
}

#[test]
fn queries_are_partition_scoped() {
    let mut t = table_with("p", &["a", "b"]);
    t.put(row("q", "a"));
    t.put(row("q", "z"));
    let p = page(&t, "p", None, None, None, Some(10), None);
    assert_eq!(page_sks(&p), vec![s("a"), s("b")]);
}

#[test]
fn condition_filters_the_page() {
    let t = table_with("p", &["TS#1", "TS#2", "TS#3", "FIN#TS#1"]);
    let cond = Condition::Between(s("TS#1"), s("TS#2"));
    let p = page(&t, "p", Some(&cond), None, None, Some(10), None);
    // between is inclusive on both ends
    assert_eq!(page_sks(&p), vec![s("TS#1"), s("TS#2")]);
    let begins = Condition::BeginsWith(s("TS#"));
    let p2 = page(&t, "p", Some(&begins), None, None, Some(10), None);
    assert_eq!(page_sks(&p2), vec![s("TS#1"), s("TS#2"), s("TS#3")]);
}
