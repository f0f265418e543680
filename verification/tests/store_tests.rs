//! Store semantics: puts, deletes, conditional updates, batch writes.

use homeapi::batch::{BATCH_CEILING, apply_chunk, batch_put_items, chunk_items};
use homeapi::condition::{Condition, KeyConditionExpr, build_key_condition};
use homeapi::errors::DataError;
use homeapi::item::{Attr, Item};
use homeapi::store::Table;

fn s(x: &str) -> String {
    String::from(x)
}

fn row(pk: &str, sk: &str, val: &str) -> Item {
    Item { pk: s(pk), sk: s(sk), attrs: vec![(s("body"), Attr::S(s(val)))] }
}

#[test]
fn put_get_overwrite_delete() {
    let mut t = Table::new();
    t.put(row("p", "a", "1"));
    t.put(row("p", "b", "2"));
    assert!(matches!(&t.get("p", "a").unwrap().attrs[0].1, Attr::S(v) if v == "1"));
    t.put(row("p", "a", "9"));
    assert!(matches!(&t.get("p", "a").unwrap().attrs[0].1, Attr::S(v) if v == "9"));
    assert_eq!(t.len(), 2);
    t.delete("p", "a");
    assert_eq!(t.get("p", "a").unwrap_err(), DataError::NotFound);
    assert!(t.get("p", "b").is_ok());
}

#[test]
fn conditional_update_of_missing_key_fails_without_creating() {
    let mut t = Table::new();
    t.put(row("p", "a", "1"));
    let upd = row("p", "missing", "9");
    let before = t.len();
    let err = t.update_item(&upd).unwrap_err();
    assert_eq!(err, DataError::ConditionFailed);
    assert_eq!(t.len(), before);
    assert_eq!(t.get("p", "missing").unwrap_err(), DataError::NotFound);
}

#[test]
fn conditional_update_merges_attributes() {
    let mut t = Table::new();
    t.put(Item {
        pk: s("p"),
        sk: s("a"),
        attrs: vec![(s("x"), Attr::S(s("1"))), (s("y"), Attr::S(s("2")))],
    });
    let upd = Item {
        pk: s("p"),
        sk: s("a"),
        attrs: vec![(s("y"), Attr::S(s("9"))), (s("z"), Attr::S(s("3")))],
    };
    let new_item = t.update_item(&upd).unwrap();
    assert_eq!(new_item.attrs.len(), 3);
    assert!(matches!(&new_item.attrs[1].1, Attr::S(v) if v == "9"));
    let stored = t.get("p", "a").unwrap();
    assert_eq!(stored.attrs.len(), 3);
}

#[test]
fn chunking_is_faithful() {
    let items: Vec<Item> = (0..57).map(|i| row("p", &format!("k{i:02}"), "v")).collect();
    let chunks = chunk_items(items, BATCH_CEILING);
    // 57 items with a ceiling of 25 make exactly 3 calls
    assert_eq!(chunks.len(), 3);
    assert_eq!(chunks[0].len(), 25);
    assert_eq!(chunks[1].len(), 25);
    assert_eq!(chunks[2].len(), 7);
    let flattened: Vec<String> =
        chunks.iter().flat_map(|c| c.iter().map(|it| it.sk.clone())).collect();
    let want: Vec<String> = (0..57).map(|i| format!("k{i:02}")).collect();
    assert_eq!(flattened, want);
}

#[test]
fn failed_second_chunk_leaves_first_chunk_persisted() {
    let items: Vec<Item> = (0..57).map(|i| row("p", &format!("k{i:02}"), "v")).collect();
    let chunks = chunk_items(items, BATCH_CEILING);
    let mut t = Table::new();
    // the first chunk's call succeeds; the second fails before reaching
    // the backend, aborting the rest — there is no rollback
    apply_chunk(&mut t, &chunks[0]);
    assert_eq!(t.len(), 25);
    assert!(t.get("p", "k00").is_ok());
    assert!(t.get("p", "k24").is_ok());
    assert_eq!(t.get("p", "k25").unwrap_err(), DataError::NotFound);
}

#[test]
fn batch_put_writes_everything() {
    let items: Vec<Item> = (0..57).map(|i| row("p", &format!("k{i:02}"), "v")).collect();
    let mut t = Table::new();
    batch_put_items(&mut t, items);
    assert_eq!(t.len(), 57);
    assert!(t.get("p", "k56").is_ok());
}

#[test]
fn batch_put_last_write_wins() {
    let mut t = Table::new();
    batch_put_items(&mut t, vec![row("p", "a", "1"), row("p", "a", "2")]);
    assert_eq!(t.len(), 1);
    assert!(matches!(&t.get("p", "a").unwrap().attrs[0].1, Attr::S(v) if v == "2"));
}

#[test]
fn key_condition_expressions_exact() {
    let e: KeyConditionExpr = build_key_condition("p", None);
    assert_eq!(e.expression, "pk = :pk");
    assert_eq!(e.bindings, vec![(s(":pk"), s("p"))]);

    let e = build_key_condition("p", Some(&Condition::Between(s("lo"), s("hi"))));
    assert_eq!(e.expression, "pk = :pk AND sk BETWEEN :a AND :b");
    assert_eq!(e.bindings, vec![(s(":pk"), s("p")), (s(":a"), s("lo")), (s(":b"), s("hi"))]);

    let e = build_key_condition("p", Some(&Condition::Ge(s("x"))));
    assert_eq!(e.expression, "pk = :pk AND sk >= :a");

    let e = build_key_condition("p", Some(&Condition::BeginsWith(s("TS#"))));
    assert_eq!(e.expression, "pk = :pk AND BEGINS_WITH(sk, :a)");

    let e = build_key_condition("p", Some(&Condition::Lt(s("x"))));
    assert_eq!(e.expression, "pk = :pk AND sk < :a");
}

#[test]
fn condition_matching_semantics() {
    assert!(Condition::Between(s("b"), s("d")).matches("b"));
    assert!(Condition::Between(s("b"), s("d")).matches("d"));
    assert!(!Condition::Between(s("b"), s("d")).matches("a"));
    assert!(Condition::BeginsWith(s("TS#")).matches("TS#123"));
    assert!(!Condition::BeginsWith(s("TS#")).matches("FIN#TS#123"));
    assert!(Condition::Eq(s("x")).matches("x"));
    assert!(Condition::Gt(s("a")).matches("b"));
    assert!(!Condition::Gt(s("a")).matches("a"));
    assert!(Condition::Le(s("b")).matches("b"));
    assert!(Condition::Lt(s("b")).matches("a"));
    assert!(Condition::Ge(s("b")).matches("b"));
}
