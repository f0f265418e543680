//! The single-table store model.
//!
//! One table holds every record, keyed by partition key and sort key. The
//! in-memory representation keeps rows strictly sorted by `(pk, sk)`, the
//! order the backend scans in; the contracts speak of the table through
//! `spec_get`, first-match key lookup over the row sequence.

use vstd::prelude::*;

use crate::errors::DataError;
use crate::item::{Item, ItemModel};
use crate::keys::{lex_lt, lemma_lex_irrefl, lemma_lex_trichotomy, str_eq, str_lt};

verus! {

/// Strict order on `(pk, sk)` keys.
pub open spec fn key_lt(apk: Seq<char>, ask: Seq<char>, bpk: Seq<char>, bsk: Seq<char>) -> bool {
    lex_lt(apk, bpk) || (apk == bpk && lex_lt(ask, bsk))
}

/// The rows are strictly ascending by key; keys are therefore unique.
pub open spec fn sorted_by_key(rows: Seq<ItemModel>) -> bool {
    forall|i: int, j: int|
        0 <= i < j < rows.len() ==> key_lt(
            #[trigger] rows[i].pk,
            rows[i].sk,
            #[trigger] rows[j].pk,
            rows[j].sk,
        )
}

/// The value of the row sequence of a table.
pub open spec fn table_model(rows: Seq<Item>) -> Seq<ItemModel> {
    rows.map_values(|r: Item| r@)
}

/// The first row with the given key, if any.
pub open spec fn spec_get(rows: Seq<ItemModel>, pk: Seq<char>, sk: Seq<char>) -> Option<ItemModel>
    decreases rows.len(),
{
    if rows.len() == 0 {
        None
    } else if rows[0].pk == pk && rows[0].sk == sk {
        Some(rows[0])
    } else {
        spec_get(rows.drop_first(), pk, sk)
    }
}

/// Key lookup distributes over concatenation, preferring the left part.
pub proof fn lemma_spec_get_concat(a: Seq<ItemModel>, b: Seq<ItemModel>, pk: Seq<char>, sk: Seq<char>)
    ensures
        spec_get(a + b, pk, sk) == if spec_get(a, pk, sk) is Some {
            spec_get(a, pk, sk)
        } else {
            spec_get(b, pk, sk)
        },
    decreases a.len(),
{
    if a.len() == 0 {
        assert(a + b =~= b);
    } else {
        assert((a + b)[0] == a[0]);
        assert((a + b).drop_first() =~= a.drop_first() + b);
        lemma_spec_get_concat(a.drop_first(), b, pk, sk);
    }
}

/// When no row carries the key, lookup returns nothing.
pub proof fn lemma_spec_get_none(rows: Seq<ItemModel>, pk: Seq<char>, sk: Seq<char>)
    requires
        forall|i: int|
            0 <= i < rows.len() ==> !(#[trigger] rows[i].pk == pk && rows[i].sk == sk),
    ensures
        spec_get(rows, pk, sk) is None,
    decreases rows.len(),
{
    if rows.len() > 0 {
        assert(forall|i: int|
            0 <= i < rows.drop_first().len() ==> #[trigger] rows.drop_first()[i] == rows[i + 1]);
        lemma_spec_get_none(rows.drop_first(), pk, sk);
    }
}

/// When the first match sits at index `i`, lookup returns that row.
pub proof fn lemma_spec_get_found(rows: Seq<ItemModel>, i: int, pk: Seq<char>, sk: Seq<char>)
    requires
        0 <= i < rows.len(),
        rows[i].pk == pk && rows[i].sk == sk,
        forall|j: int| 0 <= j < i ==> !(#[trigger] rows[j].pk == pk && rows[j].sk == sk),
    ensures
        spec_get(rows, pk, sk) == Some(rows[i]),
    decreases i,
{
    if i > 0 {
        assert(forall|j: int|
            0 <= j < rows.drop_first().len() ==> #[trigger] rows.drop_first()[j] == rows[j + 1]);
        lemma_spec_get_found(rows.drop_first(), i - 1, pk, sk);
    }
}

/// A lookup that returns a row returns a row carrying the key looked
/// up.
pub proof fn lemma_spec_get_some(rows: Seq<ItemModel>, pk: Seq<char>, sk: Seq<char>)
    requires
        spec_get(rows, pk, sk) is Some,
    ensures
        spec_get(rows, pk, sk)->Some_0.pk == pk,
        spec_get(rows, pk, sk)->Some_0.sk == sk,
    decreases rows.len(),
{
    if !(rows[0].pk == pk && rows[0].sk == sk) {
        lemma_spec_get_some(rows.drop_first(), pk, sk);
    }
}

/// Ordered keys are distinct keys.
pub proof fn lemma_key_lt_ne(apk: Seq<char>, ask: Seq<char>, bpk: Seq<char>, bsk: Seq<char>)
    requires
        key_lt(apk, ask, bpk, bsk),
    ensures
        !(apk == bpk && ask == bsk),
{
    if apk == bpk && ask == bsk {
        lemma_lex_irrefl(apk);
        lemma_lex_irrefl(ask);
    }
}

/// Any two keys are ordered one way, the other way, or equal.
pub proof fn lemma_key_trichotomy(apk: Seq<char>, ask: Seq<char>, bpk: Seq<char>, bsk: Seq<char>)
    ensures
        key_lt(apk, ask, bpk, bsk) || key_lt(bpk, bsk, apk, ask) || (apk == bpk && ask == bsk),
{
    lemma_lex_trichotomy(apk, bpk);
    lemma_lex_trichotomy(ask, bsk);
}

/// The key order is transitive.
pub proof fn lemma_key_lt_trans(
    apk: Seq<char>,
    ask: Seq<char>,
    bpk: Seq<char>,
    bsk: Seq<char>,
    cpk: Seq<char>,
    csk: Seq<char>,
)
    requires
        key_lt(apk, ask, bpk, bsk),
        key_lt(bpk, bsk, cpk, csk),
    ensures
        key_lt(apk, ask, cpk, csk),
{
    if lex_lt(apk, bpk) && lex_lt(bpk, cpk) {
        crate::keys::lemma_lex_transitive(apk, bpk, cpk);
    } else if lex_lt(ask, bsk) && lex_lt(bsk, csk) {
        crate::keys::lemma_lex_transitive(ask, bsk, csk);
    }
}

/// Inserting a row between its sorted neighbours keeps the table sorted,
/// makes its key resolve to it, and leaves every other key unchanged.
pub proof fn lemma_sorted_insert(m: Seq<ItemModel>, i: int, x: ItemModel)
    requires
        sorted_by_key(m),
        0 <= i <= m.len(),
        forall|j: int| 0 <= j < i ==> key_lt(#[trigger] m[j].pk, m[j].sk, x.pk, x.sk),
        forall|j: int| i <= j < m.len() ==> key_lt(x.pk, x.sk, #[trigger] m[j].pk, m[j].sk),
    ensures
        sorted_by_key(m.insert(i, x)),
        spec_get(m.insert(i, x), x.pk, x.sk) == Some(x),
        forall|p: Seq<char>, s: Seq<char>|
            !(p == x.pk && s == x.sk) ==> #[trigger] spec_get(m.insert(i, x), p, s) == spec_get(
                m,
                p,
                s,
            ),
{
    let pre = m.subrange(0, i);
    let post = m.subrange(i, m.len() as int);
    let tail = seq![x] + post;
    let n = m.insert(i, x);
    m.insert_ensures(i, x);
    assert(n =~= pre + tail);
    assert(m =~= pre + post);
    assert(sorted_by_key(n)) by {
        assert forall|a: int, b: int| 0 <= a < b < n.len() implies key_lt(
            #[trigger] n[a].pk,
            n[a].sk,
            #[trigger] n[b].pk,
            n[b].sk,
        ) by {
            if a < i {
                assert(n[a] == m[a]);
            } else if a == i {
                assert(n[a] == x);
            } else {
                assert(n[a] == m[a - 1]);
            }
            if b < i {
                assert(n[b] == m[b]);
            } else if b == i {
                assert(n[b] == x);
            } else {
                assert(n[b] == m[b - 1]);
            }
        }
    }
    assert forall|j: int| 0 <= j < pre.len() implies !(#[trigger] pre[j].pk == x.pk && pre[j].sk
        == x.sk) by {
        lemma_key_lt_ne(pre[j].pk, pre[j].sk, x.pk, x.sk);
    }
    lemma_spec_get_none(pre, x.pk, x.sk);
    lemma_spec_get_concat(pre, tail, x.pk, x.sk);
    assert(tail[0] == x);
    assert(spec_get(tail, x.pk, x.sk) == Some(x));
    assert forall|p: Seq<char>, s: Seq<char>| !(p == x.pk && s == x.sk) implies #[trigger]
        spec_get(n, p, s) == spec_get(m, p, s) by {
        lemma_spec_get_concat(pre, tail, p, s);
        lemma_spec_get_concat(pre, post, p, s);
        assert(tail[0] == x);
        assert(tail.drop_first() =~= post);
        assert(spec_get(tail, p, s) == spec_get(post, p, s));
    }
}

/// Overwriting the row at an index with one that carries the same key
/// keeps the table sorted, makes the key resolve to the new row, and
/// leaves every other key unchanged.
pub proof fn lemma_sorted_update(m: Seq<ItemModel>, i: int, x: ItemModel)
    requires
        sorted_by_key(m),
        0 <= i < m.len(),
        x.pk == m[i].pk,
        x.sk == m[i].sk,
    ensures
        sorted_by_key(m.update(i, x)),
        spec_get(m.update(i, x), x.pk, x.sk) == Some(x),
        forall|p: Seq<char>, s: Seq<char>|
            !(p == x.pk && s == x.sk) ==> #[trigger] spec_get(m.update(i, x), p, s) == spec_get(
                m,
                p,
                s,
            ),
{
    let pre = m.subrange(0, i);
    let post = m.subrange(i + 1, m.len() as int);
    let tail = seq![x] + post;
    let told = seq![m[i]] + post;
    let n = m.update(i, x);
    assert(n =~= pre + tail);
    assert(m =~= pre + told);
    assert(sorted_by_key(n)) by {
        assert forall|a: int, b: int| 0 <= a < b < n.len() implies key_lt(
            #[trigger] n[a].pk,
            n[a].sk,
            #[trigger] n[b].pk,
            n[b].sk,
        ) by {
            assert(a != i ==> n[a] == m[a]);
            assert(b != i ==> n[b] == m[b]);
            assert(n[i] == x);
        }
    }
    assert forall|j: int| 0 <= j < pre.len() implies !(#[trigger] pre[j].pk == x.pk && pre[j].sk
        == x.sk) by {
        assert(pre[j] == m[j]);
        lemma_key_lt_ne(m[j].pk, m[j].sk, m[i].pk, m[i].sk);
    }
    lemma_spec_get_none(pre, x.pk, x.sk);
    lemma_spec_get_concat(pre, tail, x.pk, x.sk);
    assert(tail[0] == x);
    assert(spec_get(tail, x.pk, x.sk) == Some(x));
    assert forall|p: Seq<char>, s: Seq<char>| !(p == x.pk && s == x.sk) implies #[trigger]
        spec_get(n, p, s) == spec_get(m, p, s) by {
        lemma_spec_get_concat(pre, tail, p, s);
        lemma_spec_get_concat(pre, told, p, s);
        assert(tail[0] == x);
        assert(told[0] == m[i]);
        assert(tail.drop_first() =~= post);
        assert(told.drop_first() =~= post);
        assert(spec_get(tail, p, s) == spec_get(post, p, s));
        assert(spec_get(told, p, s) == spec_get(post, p, s));
    }
}

/// Removing the row at an index keeps the table sorted, makes its key
/// resolve to nothing, and leaves every other key unchanged.
pub proof fn lemma_sorted_remove(m: Seq<ItemModel>, i: int)
    requires
        sorted_by_key(m),
        0 <= i < m.len(),
    ensures
        sorted_by_key(m.remove(i)),
        spec_get(m.remove(i), m[i].pk, m[i].sk) is None,
        forall|p: Seq<char>, s: Seq<char>|
            !(p == m[i].pk && s == m[i].sk) ==> #[trigger] spec_get(m.remove(i), p, s)
                == spec_get(m, p, s),
{
    let pre = m.subrange(0, i);
    let post = m.subrange(i + 1, m.len() as int);
    let told = seq![m[i]] + post;
    let n = m.remove(i);
    m.remove_ensures(i);
    assert(n =~= pre + post);
    assert(m =~= pre + told);
    assert(sorted_by_key(n)) by {
        assert forall|a: int, b: int| 0 <= a < b < n.len() implies key_lt(
            #[trigger] n[a].pk,
            n[a].sk,
            #[trigger] n[b].pk,
            n[b].sk,
        ) by {
            assert(n[a] == if a < i {
                m[a]
            } else {
                m[a + 1]
            });
            assert(n[b] == if b < i {
                m[b]
            } else {
                m[b + 1]
            });
        }
    }
    assert forall|j: int| 0 <= j < pre.len() implies !(#[trigger] pre[j].pk == m[i].pk
        && pre[j].sk == m[i].sk) by {
        assert(pre[j] == m[j]);
        lemma_key_lt_ne(m[j].pk, m[j].sk, m[i].pk, m[i].sk);
    }
    assert forall|j: int| 0 <= j < post.len() implies !(#[trigger] post[j].pk == m[i].pk
        && post[j].sk == m[i].sk) by {
        assert(post[j] == m[i + 1 + j]);
        lemma_key_lt_ne(m[i].pk, m[i].sk, m[i + 1 + j].pk, m[i + 1 + j].sk);
    }
    lemma_spec_get_none(pre, m[i].pk, m[i].sk);
    lemma_spec_get_none(post, m[i].pk, m[i].sk);
    lemma_spec_get_concat(pre, post, m[i].pk, m[i].sk);
    assert forall|p: Seq<char>, s: Seq<char>| !(p == m[i].pk && s == m[i].sk) implies #[trigger]
        spec_get(n, p, s) == spec_get(m, p, s) by {
        lemma_spec_get_concat(pre, post, p, s);
        lemma_spec_get_concat(pre, told, p, s);
        assert(told[0] == m[i]);
        assert(told.drop_first() =~= post);
        assert(spec_get(told, p, s) == spec_get(post, p, s));
    }
}

/// The single shared table.
pub struct Table {
    pub rows: Vec<Item>,
}

impl View for Table {
    type V = Seq<ItemModel>;

    open spec fn view(&self) -> Seq<ItemModel> {
        table_model(self.rows@)
    }
}

impl Table {
    /// The representation invariant: rows strictly ascending by key.
    pub open spec fn wf(&self) -> bool {
        sorted_by_key(self@)
    }

    /// An empty table.
    pub fn new() -> (r: Table)
        ensures
            r.wf(),
            r@ =~= Seq::<ItemModel>::empty(),
    {
        let r = Table { rows: Vec::new() };
        proof {
            assert(r@ =~= Seq::<ItemModel>::empty());
        }
        r
    }

    /// The number of rows.
    pub fn len(&self) -> (r: usize)
        ensures
            r == self@.len(),
    {
        self.rows.len()
    }

    /// The index of the first row with the given key, if present.
    fn find_idx(&self, pk: &str, sk: &str) -> (r: Option<usize>)
        ensures
            match r {
                Some(i) => {
                    &&& i < self@.len()
                    &&& self@[i as int].pk == pk@ && self@[i as int].sk == sk@
                    &&& forall|j: int|
                        0 <= j < i ==> !(#[trigger] self@[j].pk == pk@ && self@[j].sk == sk@)
                },
                None => forall|i: int|
                    0 <= i < self@.len() ==> !(#[trigger] self@[i].pk == pk@ && self@[i].sk
                        == sk@),
            },
    {
        let n = self.rows.len();
        let mut i: usize = 0;
        while i < n
            invariant
                n == self@.len(),
                n == self.rows.len(),
                i <= n,
                forall|j: int|
                    0 <= j < i ==> !(#[trigger] self@[j].pk == pk@ && self@[j].sk == sk@),
            decreases n - i,
        {
            proof {
                assert(self@[i as int] == self.rows@[i as int]@);
            }
            if str_eq(self.rows[i].pk.as_str(), pk) && str_eq(self.rows[i].sk.as_str(), sk) {
                return Some(i);
            }
            i = i + 1;
        }
        None
    }

    /// Fetches the row with the given key; `NotFound` when no row carries
    /// it.
    pub fn get(&self, pk: &str, sk: &str) -> (r: Result<&Item, DataError>)
        ensures
            match r {
                Ok(item) => spec_get(self@, pk@, sk@) == Some(item@),
                Err(e) => e == DataError::NotFound && spec_get(self@, pk@, sk@) is None,
            },
    {
        match self.find_idx(pk, sk) {
            Some(i) => {
                proof {
                    lemma_spec_get_found(self@, i as int, pk@, sk@);
                    assert(self@[i as int] == self.rows@[i as int]@);
                }
                Ok(&self.rows[i])
            },
            None => {
                proof {
                    lemma_spec_get_none(self@, pk@, sk@);
                }
                Err(DataError::NotFound)
            },
        }
    }

    /// Writes an item unconditionally: a whole-item overwrite when the key
    /// is present, an insert when it is not.
    pub fn put(&mut self, item: Item)
        requires
            old(self).wf(),
        ensures
            final(self).wf(),
            spec_get(final(self)@, item@.pk, item@.sk) == Some(item@),
            forall|p: Seq<char>, s: Seq<char>|
                !(p == item@.pk && s == item@.sk) ==> #[trigger] spec_get(final(self)@, p, s)
                    == spec_get(old(self)@, p, s),
    {
        let ghost m = self@;
        let ghost x = item@;
        let n = self.rows.len();
        let mut i: usize = 0;
        while i < n && key_lt_exec(
            self.rows[i].pk.as_str(),
            self.rows[i].sk.as_str(),
            item.pk.as_str(),
            item.sk.as_str(),
        )
            invariant
                n == self.rows.len(),
                i <= n,
                self@ == m,
                item@ == x,
                forall|j: int| 0 <= j < i ==> key_lt(#[trigger] m[j].pk, m[j].sk, x.pk, x.sk),
            decreases n - i,
        {
            proof {
                assert(m[i as int] == self.rows@[i as int]@);
            }
            i = i + 1;
        }
        proof {
            if i < n {
                assert(m[i as int] == self.rows@[i as int]@);
            }
        }
        let replace = if i < n {
            str_eq(self.rows[i].pk.as_str(), item.pk.as_str()) && str_eq(
                self.rows[i].sk.as_str(),
                item.sk.as_str(),
            )
        } else {
            false
        };
        if replace {
            proof {
                lemma_sorted_update(m, i as int, x);
            }
            self.rows.set(i, item);
            proof {
                assert(self@ =~= m.update(i as int, x));
            }
        } else {
            proof {
                assert forall|j: int| i <= j < n implies key_lt(
                    x.pk,
                    x.sk,
                    #[trigger] m[j].pk,
                    m[j].sk,
                ) by {
                    lemma_key_trichotomy(m[i as int].pk, m[i as int].sk, x.pk, x.sk);
                    if j > i {
                        lemma_key_lt_trans(
                            x.pk,
                            x.sk,
                            m[i as int].pk,
                            m[i as int].sk,
                            m[j].pk,
                            m[j].sk,
                        );
                    }
                }
                lemma_sorted_insert(m, i as int, x);
            }
            self.rows.insert(i, item);
            proof {
                assert(self@ =~= m.insert(i as int, x));
            }
        }
    }

    /// Deletes the item with the given key; a no-op when it is absent.
    pub fn delete(&mut self, pk: &str, sk: &str)
        requires
            old(self).wf(),
        ensures
            final(self).wf(),
            spec_get(final(self)@, pk@, sk@) is None,
            forall|p: Seq<char>, s: Seq<char>|
                !(p == pk@ && s == sk@) ==> #[trigger] spec_get(final(self)@, p, s) == spec_get(
                    old(self)@,
                    p,
                    s,
                ),
    {
        let ghost m = self@;
        match self.find_idx(pk, sk) {
            Some(i) => {
                proof {
                    lemma_sorted_remove(m, i as int);
                }
                self.rows.remove(i);
                proof {
                    assert(self@ =~= m.remove(i as int));
                }
            },
            None => {
                proof {
                    lemma_spec_get_none(m, pk@, sk@);
                }
            },
        }
    }

    /// An attribute-level update that requires the item to already exist:
    /// sets the update's attributes over the stored item and returns the
    /// post-update view of the whole item. When the key is absent the
    /// update fails with `ConditionFailed` and the table is unchanged.
    pub fn update_item(&mut self, update: &Item) -> (r: Result<Item, DataError>)
        requires
            old(self).wf(),
        ensures
            final(self).wf(),
            match r {
                Ok(new_item) => {
                    &&& spec_get(old(self)@, update@.pk, update@.sk) is Some
                    &&& new_item@.pk == update@.pk
                    &&& new_item@.sk == update@.sk
                    &&& new_item@.attrs == crate::item::merged_attrs(
                        spec_get(old(self)@, update@.pk, update@.sk)->Some_0.attrs,
                        update@.attrs,
                    )
                    &&& spec_get(final(self)@, update@.pk, update@.sk) == Some(new_item@)
                    &&& forall|p: Seq<char>, s: Seq<char>|
                        !(p == update@.pk && s == update@.sk) ==> #[trigger] spec_get(
                            final(self)@,
                            p,
                            s,
                        ) == spec_get(old(self)@, p, s)
                },
                Err(e) => {
                    &&& e == DataError::ConditionFailed
                    &&& spec_get(old(self)@, update@.pk, update@.sk) is None
                    &&& final(self)@ == old(self)@
                },
            },
    {
        let ghost m = self@;
        match self.find_idx(update.pk.as_str(), update.sk.as_str()) {
            Some(i) => {
                proof {
                    lemma_spec_get_found(m, i as int, update@.pk, update@.sk);
                    assert(m[i as int] == self.rows@[i as int]@);
                }
                let merged = crate::item::merge_items(&self.rows[i], update);
                let result = merged.duplicate();
                proof {
                    lemma_sorted_update(m, i as int, merged@);
                }
                self.rows.set(i, merged);
                proof {
                    assert(self@ =~= m.update(i as int, result@));
                }
                Ok(result)
            },
            None => {
                proof {
                    lemma_spec_get_none(m, update@.pk, update@.sk);
                }
                Err(DataError::ConditionFailed)
            },
        }
    }
}

/// Decides the strict `(pk, sk)` key order.
fn key_lt_exec(apk: &str, ask: &str, bpk: &str, bsk: &str) -> (r: bool)
    ensures
        r == key_lt(apk@, ask@, bpk@, bsk@),
{
    if str_lt(apk, bpk) {
        true
    } else if str_eq(apk, bpk) {
        str_lt(ask, bsk)
    } else {
        false
    }
}

} // verus!
