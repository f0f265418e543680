//! The partition query engine.
//!
//! The backend's native query scans one partition in one direction from an
//! exclusive start key with an optional limit. These are the native
//! semantics over the table model, the bidirectional cursor pagination
//! built on top of them, and the exhaustive fetch that follows
//! continuation cursors to the end of the partition.

use vstd::prelude::*;

use crate::condition::{Condition, ConditionModel, opt_cond_matches};
use crate::item::{Item, ItemModel};
use crate::keys::{lex_le, lex_lt, lemma_lex_asymmetric, lemma_lex_lt_le_trans,
    str_le, str_lt};
use crate::store::{Table, key_lt, sorted_by_key, table_model};

verus! {

/// Whether a row belongs to the result set of a partition query.
pub open spec fn row_matches(r: ItemModel, pk: Seq<char>, cond: Option<ConditionModel>) -> bool {
    r.pk == pk && opt_cond_matches(cond, r.sk)
}

/// The rows of a partition query's result set, in table order.
pub open spec fn matching(
    rows: Seq<ItemModel>,
    pk: Seq<char>,
    cond: Option<ConditionModel>,
) -> Seq<ItemModel>
    decreases rows.len(),
{
    if rows.len() == 0 {
        Seq::empty()
    } else {
        let rest = matching(rows.drop_last(), pk, cond);
        if row_matches(rows.last(), pk, cond) {
            rest.push(rows.last())
        } else {
            rest
        }
    }
}

/// Sort keys strictly ascend along the sequence.
pub open spec fn sk_ascending(m: Seq<ItemModel>) -> bool {
    forall|i: int, j: int| 0 <= i < j < m.len() ==> lex_lt(#[trigger] m[i].sk, #[trigger] m[j].sk)
}

/// Over a sorted table, the matching rows all satisfy the query, sit in
/// the queried partition, and ascend strictly by sort key.
pub proof fn lemma_matching_props(rows: Seq<ItemModel>, pk: Seq<char>, cond: Option<ConditionModel>)
    requires
        sorted_by_key(rows),
    ensures
        forall|k: int|
            0 <= k < matching(rows, pk, cond).len() ==> row_matches(
                #[trigger] matching(rows, pk, cond)[k],
                pk,
                cond,
            ),
        forall|k: int|
            0 <= k < matching(rows, pk, cond).len() ==> exists|i: int|
                0 <= i < rows.len() && rows[i] == #[trigger] matching(rows, pk, cond)[k],
        sk_ascending(matching(rows, pk, cond)),
    decreases rows.len(),
{
    if rows.len() > 0 {
        let butlast = rows.drop_last();
        assert(forall|i: int| 0 <= i < butlast.len() ==> #[trigger] butlast[i] == rows[i]);
        assert(sorted_by_key(butlast));
        lemma_matching_props(butlast, pk, cond);
        let mb = matching(butlast, pk, cond);
        let mw = matching(rows, pk, cond);
        assert forall|k: int| 0 <= k < mb.len() implies exists|i: int|
            0 <= i < rows.len() && rows[i] == #[trigger] mb[k] by {
            let i = choose|i: int| 0 <= i < butlast.len() && butlast[i] == mb[k];
            assert(rows[i] == mb[k]);
        }
        if row_matches(rows.last(), pk, cond) {
            assert(mw == mb.push(rows.last()));
            assert forall|a: int, b: int| 0 <= a < b < mw.len() implies lex_lt(
                #[trigger] mw[a].sk,
                #[trigger] mw[b].sk,
            ) by {
                if b < mw.len() - 1 {
                    assert(mw[a] == mb[a] && mw[b] == mb[b]);
                } else {
                    assert(mw[b] == rows.last());
                    assert(mw[a] == mb[a]);
                    let i = choose|i: int| 0 <= i < butlast.len() && butlast[i] == mb[a];
                    assert(rows[i] == mb[a]);
                    assert(key_lt(rows[i].pk, rows[i].sk, rows.last().pk, rows.last().sk));
                    assert(rows[i].pk == pk && rows.last().pk == pk);
                    crate::keys::lemma_lex_irrefl(pk);
                }
            }
        } else {
            assert(mw == mb);
        }
    }
}

/// How many rows carry a sort key at or below the given key.
pub open spec fn count_le(m: Seq<ItemModel>, key: Seq<char>) -> int
    decreases m.len(),
{
    if m.len() == 0 {
        0
    } else {
        count_le(m.drop_last(), key) + if lex_le(m.last().sk, key) {
            1int
        } else {
            0int
        }
    }
}

/// How many rows carry a sort key strictly below the given key.
pub open spec fn count_lt(m: Seq<ItemModel>, key: Seq<char>) -> int
    decreases m.len(),
{
    if m.len() == 0 {
        0
    } else {
        count_lt(m.drop_last(), key) + if lex_lt(m.last().sk, key) {
            1int
        } else {
            0int
        }
    }
}

/// When the rows at or below the key are exactly the first `j`, the count
/// is `j`.
pub proof fn lemma_count_le_split(m: Seq<ItemModel>, key: Seq<char>, j: int)
    requires
        0 <= j <= m.len(),
        forall|k: int| 0 <= k < j ==> lex_le(#[trigger] m[k].sk, key),
        forall|k: int| j <= k < m.len() ==> !lex_le(#[trigger] m[k].sk, key),
    ensures
        count_le(m, key) == j,
    decreases m.len(),
{
    if m.len() > 0 {
        let butlast = m.drop_last();
        assert(forall|i: int| 0 <= i < butlast.len() ==> #[trigger] butlast[i] == m[i]);
        if j == m.len() {
            assert(lex_le(m.last().sk, key));
            lemma_count_le_split(butlast, key, j - 1);
        } else {
            assert(!lex_le(m.last().sk, key));
            lemma_count_le_split(butlast, key, j);
        }
    }
}

/// When the rows strictly below the key are exactly the first `j`, the
/// count is `j`.
pub proof fn lemma_count_lt_split(m: Seq<ItemModel>, key: Seq<char>, j: int)
    requires
        0 <= j <= m.len(),
        forall|k: int| 0 <= k < j ==> lex_lt(#[trigger] m[k].sk, key),
        forall|k: int| j <= k < m.len() ==> !lex_lt(#[trigger] m[k].sk, key),
    ensures
        count_lt(m, key) == j,
    decreases m.len(),
{
    if m.len() > 0 {
        let butlast = m.drop_last();
        assert(forall|i: int| 0 <= i < butlast.len() ==> #[trigger] butlast[i] == m[i]);
        if j == m.len() {
            lemma_count_lt_split(butlast, key, j - 1);
        } else {
            lemma_count_lt_split(butlast, key, j);
        }
    }
}

/// The view of an optional string argument.
pub open spec fn opt_view(o: Option<&str>) -> Option<Seq<char>> {
    match o {
        Some(a) => Some(a@),
        None => None,
    }
}

/// The view of an optional condition argument.
pub open spec fn opt_cond_view(c: Option<&Condition>) -> Option<ConditionModel> {
    match c {
        Some(cm) => Some(cm@),
        None => None,
    }
}

/// Where a forward scan begins: just past every row at or below the
/// exclusive start key, or at the front when no cursor is given.
pub open spec fn forward_start(m: Seq<ItemModel>, after: Option<Seq<char>>) -> int {
    match after {
        None => 0,
        Some(a) => count_le(m, a),
    }
}

/// Where a backward scan begins: just below every row at or above the
/// exclusive start key, or at the back when no cursor is given.
pub open spec fn backward_end(m: Seq<ItemModel>, before: Option<Seq<char>>) -> int {
    match before {
        None => m.len() as int,
        Some(b) => count_lt(m, b),
    }
}

/// Appending an item to a row vector appends its value to the model.
pub proof fn lemma_table_model_push(s: Seq<Item>, x: Item)
    ensures
        table_model(s.push(x)) =~= table_model(s).push(x@),
{
    assert forall|j: int| 0 <= j < s.len() + 1 implies #[trigger] table_model(s.push(x))[j]
        == table_model(s).push(x@)[j] by {
        if j < s.len() {
            assert(table_model(s)[j] == s[j]@);
        }
    }
}

impl Table {
    /// The rows of the queried partition that satisfy the predicate, in
    /// ascending sort-key order: the result set a native scan walks.
    fn collect_matching(&self, pk: &str, cond: Option<&Condition>) -> (r: Vec<Item>)
        ensures
            table_model(r@) == matching(self@, pk@, opt_cond_view(cond)),
    {
        let ghost cm = opt_cond_view(cond);
        let n = self.rows.len();
        let mut out: Vec<Item> = Vec::new();
        let mut i: usize = 0;
        while i < n
            invariant
                n == self.rows.len(),
                i <= n,
                cm == opt_cond_view(cond),
                table_model(out@) =~= matching(self@.subrange(0, i as int), pk@, cm),
            decreases n - i,
        {
            proof {
                assert(self@[i as int] == self.rows@[i as int]@);
                assert(self@.subrange(0, i as int + 1).drop_last() =~= self@.subrange(
                    0,
                    i as int,
                ));
                assert(self@.subrange(0, i as int + 1).last() == self@[i as int]);
            }
            let hit = crate::keys::str_eq(self.rows[i].pk.as_str(), pk) && (match cond {
                None => true,
                Some(c) => c.matches(self.rows[i].sk.as_str()),
            });
            if hit {
                let copy = self.rows[i].duplicate();
                proof {
                    lemma_table_model_push(out@, copy);
                }
                out.push(copy);
            }
            i = i + 1;
        }
        proof {
            assert(self@.subrange(0, n as int) =~= self@);
        }
        out
    }

    /// The native forward scan: ascending sort-key order, starting just
    /// past the exclusive start key, reading at most `limit` rows. The
    /// second result is the continuation cursor: the sort key of the last
    /// row read, present exactly when matching rows remain beyond it.
    pub fn query_forward(
        &self,
        pk: &str,
        cond: Option<&Condition>,
        after: Option<&str>,
        limit: Option<usize>,
    ) -> (r: (Vec<Item>, Option<String>))
        requires
            self.wf(),
            limit matches Some(l) ==> l >= 1,
        ensures
            ({
                let mm = matching(self@, pk@, opt_cond_view(cond));
                let s = forward_start(mm, opt_view(after));
                let e = match limit {
                    Some(l) => if s + l < mm.len() {
                        s + l
                    } else {
                        mm.len() as int
                    },
                    None => mm.len() as int,
                };
                &&& table_model(r.0@) == mm.subrange(s, e)
                &&& match r.1 {
                    Some(c) => e < mm.len() && s < e && c@ == mm[e - 1].sk,
                    None => e == mm.len(),
                }
            }),
    {
        let mvec = self.collect_matching(pk, cond);
        let ghost mm = matching(self@, pk@, opt_cond_view(cond));
        proof {
            lemma_matching_props(self@, pk@, opt_cond_view(cond));
        }
        let mlen = mvec.len();
        let mut s: usize = 0;
        match after {
            None => {},
            Some(a) => {
                while s < mlen && str_le(mvec[s].sk.as_str(), a)
                    invariant
                        mlen == mvec.len(),
                        s <= mlen,
                        table_model(mvec@) == mm,
                        sk_ascending(mm),
                        forall|k: int| 0 <= k < s ==> lex_le(#[trigger] mm[k].sk, a@),
                    decreases mlen - s,
                {
                    proof {
                        assert(mm[s as int] == mvec@[s as int]@);
                    }
                    s = s + 1;
                }
                proof {
                    if s < mlen {
                        assert(mm[s as int] == mvec@[s as int]@);
                    }
                    assert forall|k: int| s <= k < mm.len() implies !lex_le(
                        #[trigger] mm[k].sk,
                        a@,
                    ) by {
                        if k > s && lex_le(mm[k].sk, a@) {
                            lemma_lex_lt_le_trans(mm[s as int].sk, mm[k].sk, a@);
                        }
                    }
                    lemma_count_le_split(mm, a@, s as int);
                }
            },
        }
        let e: usize = match limit {
            Some(l) => if l < mlen - s {
                s + l
            } else {
                mlen
            },
            None => mlen,
        };
        let mut out: Vec<Item> = Vec::new();
        let mut k: usize = s;
        while k < e
            invariant
                mlen == mvec.len(),
                s <= k <= e <= mlen,
                table_model(mvec@) == mm,
                table_model(out@) =~= mm.subrange(s as int, k as int),
            decreases e - k,
        {
            proof {
                assert(mm[k as int] == mvec@[k as int]@);
            }
            let copy = mvec[k].duplicate();
            proof {
                lemma_table_model_push(out@, copy);
            }
            out.push(copy);
            k = k + 1;
        }
        let next: Option<String> = if e < mlen {
            proof {
                assert(mm[e - 1] == mvec@[e - 1]@);
            }
            Some(mvec[e - 1].sk.clone())
        } else {
            None
        };
        (out, next)
    }

    /// The native backward scan: descending sort-key order, starting just
    /// below the exclusive start key, reading at most `limit` rows. The
    /// second result is the continuation cursor: the sort key of the last
    /// row read, present exactly when matching rows remain below it.
    pub fn query_backward(
        &self,
        pk: &str,
        cond: Option<&Condition>,
        before: Option<&str>,
        limit: Option<usize>,
    ) -> (r: (Vec<Item>, Option<String>))
        requires
            self.wf(),
            limit matches Some(l) ==> l >= 1,
        ensures
            ({
                let mm = matching(self@, pk@, opt_cond_view(cond));
                let t = backward_end(mm, opt_view(before));
                let s2 = match limit {
                    Some(l) => if t - l > 0 {
                        t - l
                    } else {
                        0
                    },
                    None => 0,
                };
                &&& 0 <= s2 <= t <= mm.len()
                &&& table_model(r.0@) == mm.subrange(s2, t).reverse()
                &&& match r.1 {
                    Some(c) => s2 > 0 && c@ == mm[s2].sk,
                    None => s2 == 0,
                }
            }),
    {
        let mvec = self.collect_matching(pk, cond);
        let ghost mm = matching(self@, pk@, opt_cond_view(cond));
        proof {
            lemma_matching_props(self@, pk@, opt_cond_view(cond));
        }
        let mlen = mvec.len();
        let mut t: usize = mlen;
        match before {
            None => {},
            Some(b) => {
                t = 0;
                while t < mlen && str_lt(mvec[t].sk.as_str(), b)
                    invariant
                        mlen == mvec.len(),
                        t <= mlen,
                        table_model(mvec@) == mm,
                        sk_ascending(mm),
                        forall|k: int| 0 <= k < t ==> lex_lt(#[trigger] mm[k].sk, b@),
                    decreases mlen - t,
                {
                    proof {
                        assert(mm[t as int] == mvec@[t as int]@);
                    }
                    t = t + 1;
                }
                proof {
                    if t < mlen {
                        assert(mm[t as int] == mvec@[t as int]@);
                    }
                    assert forall|k: int| t <= k < mm.len() implies !lex_lt(
                        #[trigger] mm[k].sk,
                        b@,
                    ) by {
                        if k > t && lex_lt(mm[k].sk, b@) {
                            crate::keys::lemma_lex_transitive(mm[t as int].sk, mm[k].sk, b@);
                        }
                    }
                    lemma_count_lt_split(mm, b@, t as int);
                }
            },
        }
        let s2: usize = match limit {
            Some(l) => if l < t {
                t - l
            } else {
                0
            },
            None => 0,
        };
        let mut out: Vec<Item> = Vec::new();
        let mut k: usize = 0;
        while k < t - s2
            invariant
                mlen == mvec.len(),
                s2 <= t <= mlen,
                k <= t - s2,
                table_model(mvec@) == mm,
                out@.len() == k,
                forall|idx: int|
                    0 <= idx < k ==> #[trigger] table_model(out@)[idx] == mm[t - 1 - idx],
            decreases t - s2 - k,
        {
            proof {
                assert(mm[t - 1 - k as int] == mvec@[t - 1 - k as int]@);
            }
            let copy = mvec[t - 1 - k].duplicate();
            proof {
                lemma_table_model_push(out@, copy);
            }
            out.push(copy);
            k = k + 1;
        }
        proof {
            assert(table_model(out@) =~= mm.subrange(s2 as int, t as int).reverse());
        }
        let next: Option<String> = if s2 > 0 {
            proof {
                assert(mm[s2 as int] == mvec@[s2 as int]@);
            }
            Some(mvec[s2].sk.clone())
        } else {
            None
        };
        (out, next)
    }
}

/// The mathematical value of one page of results.
#[verifier::ext_equal]
pub struct PageModel {
    /// The rows of the page, in ascending sort-key order.
    pub items: Seq<ItemModel>,
    /// The continuation cursor handed back by the underlying fetch.
    pub next: Option<Seq<char>>,
    /// Whether a page precedes this one.
    pub has_previous_page: bool,
    /// Whether a page follows this one.
    pub has_next_page: bool,
}

/// The view of an optional owned cursor.
pub open spec fn opt_string_view(o: Option<String>) -> Option<Seq<char>> {
    match o {
        Some(s) => Some(s@),
        None => None,
    }
}

/// The view of an optional page-size argument.
pub open spec fn opt_usize_view(o: Option<usize>) -> Option<int> {
    match o {
        Some(v) => Some(v as int),
        None => None,
    }
}

/// One page of bidirectional cursor pagination over the matching rows
/// `mm`, reconciling `first`/`after` and `last`/`before` with the native
/// one-direction scan:
/// - with `first`, scan forward from `after`, limited to `first` rows; if
///   `last` is also given and smaller, keep only the tail `last` of that
///   (ascending order throughout);
/// - with only `last`, scan backward from `before`, limited to `last`
///   rows, and present the page in ascending order;
/// - with neither, scan forward from `after` without limit.
/// The boundary flags are derived: a page is known to precede when an
/// `after` cursor was supplied or a backward fetch left a continuation,
/// and to follow when a `before` cursor was supplied or a forward fetch
/// left a continuation.
pub open spec fn spec_page(
    mm: Seq<ItemModel>,
    after: Option<Seq<char>>,
    before: Option<Seq<char>>,
    first: Option<int>,
    last: Option<int>,
) -> PageModel {
    if first is Some {
        let f = first->Some_0;
        let s = forward_start(mm, after);
        let e = if s + f < mm.len() {
            s + f
        } else {
            mm.len() as int
        };
        let base = mm.subrange(s, e);
        let next = if e < mm.len() {
            Some(mm[e - 1].sk)
        } else {
            None
        };
        let items = if last is Some && f > last->Some_0 {
            let l = last->Some_0;
            if l < base.len() {
                base.subrange(base.len() - l, base.len() as int)
            } else {
                base
            }
        } else {
            base
        };
        PageModel {
            items,
            next,
            has_previous_page: after is Some || (last is Some && next is Some),
            has_next_page: before is Some || next is Some,
        }
    } else if last is Some {
        let l = last->Some_0;
        let t = backward_end(mm, before);
        let s2 = if t - l > 0 {
            t - l
        } else {
            0
        };
        let items = mm.subrange(s2, t);
        let next = if s2 > 0 {
            Some(mm[s2].sk)
        } else {
            None
        };
        PageModel {
            items,
            next,
            has_previous_page: after is Some || next is Some,
            has_next_page: before is Some,
        }
    } else {
        let s = forward_start(mm, after);
        PageModel {
            items: mm.subrange(s, mm.len() as int),
            next: None,
            has_previous_page: after is Some,
            has_next_page: before is Some,
        }
    }
}

/// One page of results with its boundary flags.
#[derive(Debug)]
pub struct Page {
    /// The rows of the page, in ascending sort-key order.
    pub items: Vec<Item>,
    /// The continuation cursor: the sort key where the underlying fetch
    /// stopped, to be passed back as `after` (forward) or `before`
    /// (backward).
    pub next_cursor: Option<String>,
    /// Whether a page precedes this one.
    pub has_previous_page: bool,
    /// Whether a page follows this one.
    pub has_next_page: bool,
}

/// The items in reverse order.
fn reverse_items(v: Vec<Item>) -> (r: Vec<Item>)
    ensures
        table_model(r@) == table_model(v@).reverse(),
{
    let n = v.len();
    let mut out: Vec<Item> = Vec::new();
    let mut k: usize = 0;
    while k < n
        invariant
            n == v.len(),
            k <= n,
            out@.len() == k,
            forall|idx: int|
                0 <= idx < k ==> #[trigger] table_model(out@)[idx] == table_model(v@)[n - 1 - idx],
        decreases n - k,
    {
        let copy = v[n - 1 - k].duplicate();
        proof {
            lemma_table_model_push(out@, copy);
            assert(table_model(v@)[n - 1 - k as int] == v@[n - 1 - k as int]@);
        }
        out.push(copy);
        k = k + 1;
    }
    proof {
        assert(table_model(out@) =~= table_model(v@).reverse());
    }
    out
}

/// The items from the given index on.
fn tail_items(v: Vec<Item>, from: usize) -> (r: Vec<Item>)
    requires
        from <= v@.len(),
    ensures
        table_model(r@) == table_model(v@).subrange(from as int, v@.len() as int),
{
    let n = v.len();
    let mut out: Vec<Item> = Vec::new();
    let mut k: usize = from;
    while k < n
        invariant
            n == v.len(),
            from <= k <= n,
            table_model(out@) =~= table_model(v@).subrange(from as int, k as int),
        decreases n - k,
    {
        let copy = v[k].duplicate();
        proof {
            lemma_table_model_push(out@, copy);
            assert(table_model(v@)[k as int] == v@[k as int]@);
        }
        out.push(copy);
        k = k + 1;
    }
    out
}

/// Executes one page of bidirectional cursor pagination over the queried
/// partition. The result is pinned to `spec_page` over the matching rows.
pub fn page(
    table: &Table,
    pk: &str,
    cond: Option<&Condition>,
    after: Option<&str>,
    before: Option<&str>,
    first: Option<usize>,
    last: Option<usize>,
) -> (r: Page)
    requires
        table.wf(),
        first matches Some(f) ==> f >= 1,
        last matches Some(l) ==> l >= 1,
    ensures
        ({
            let pm = spec_page(
                matching(table@, pk@, opt_cond_view(cond)),
                opt_view(after),
                opt_view(before),
                opt_usize_view(first),
                opt_usize_view(last),
            );
            &&& table_model(r.items@) == pm.items
            &&& opt_string_view(r.next_cursor) == pm.next
            &&& r.has_previous_page == pm.has_previous_page
            &&& r.has_next_page == pm.has_next_page
        }),
{
    let ghost mm = matching(table@, pk@, opt_cond_view(cond));
    match (first, last) {
        (None, None) => {
            let (items, next) = table.query_forward(pk, cond, after, None);
            proof {
                assert(table_model(items@) =~= mm.subrange(
                    forward_start(mm, opt_view(after)),
                    mm.len() as int,
                ));
            }
            Page {
                items,
                next_cursor: next,
                has_previous_page: after.is_some(),
                has_next_page: before.is_some(),
            }
        },
        (None, Some(l)) => {
            let (scanned, next) = table.query_backward(pk, cond, before, Some(l));
            let items = reverse_items(scanned);
            proof {
                let t = backward_end(mm, opt_view(before));
                let s2 = if t - l > 0 {
                    t - l
                } else {
                    0int
                };
                assert(table_model(items@) =~= mm.subrange(s2, t)) by {
                    assert(table_model(scanned@) == mm.subrange(s2, t).reverse());
                    assert forall|idx: int|
                        0 <= idx < mm.subrange(s2, t).len() implies #[trigger] mm.subrange(
                        s2,
                        t,
                    ).reverse().reverse()[idx] == mm.subrange(s2, t)[idx] by {}
                }
            }
            let has_previous_page = after.is_some() || next.is_some();
            Page { items, next_cursor: next, has_previous_page, has_next_page: before.is_some() }
        },
        (Some(f), _) => {
            let (base, next) = table.query_forward(pk, cond, after, Some(f));
            let has_previous_page = after.is_some() || (last.is_some() && next.is_some());
            let has_next_page = before.is_some() || next.is_some();
            let items = match last {
                Some(l) if f > l => {
                    if l < base.len() {
                        let from = base.len() - l;
                        tail_items(base, from)
                    } else {
                        base
                    }
                },
                _ => base,
            };
            Page { items, next_cursor: next, has_previous_page, has_next_page }
        },
    }
}

/// A continuation cursor taken from the row at `e - 1` starts the next
/// forward scan exactly at `e`.
pub proof fn lemma_cursor_resumes(mm: Seq<ItemModel>, e: int)
    requires
        sk_ascending(mm),
        0 < e <= mm.len(),
    ensures
        forward_start(mm, Some(mm[e - 1].sk)) == e,
{
    let key = mm[e - 1].sk;
    assert forall|k: int| 0 <= k < e implies lex_le(#[trigger] mm[k].sk, key) by {
        if k < e - 1 {
            assert(lex_lt(mm[k].sk, key));
        }
    }
    assert forall|k: int| e <= k < mm.len() implies !lex_le(#[trigger] mm[k].sk, key) by {
        assert(lex_lt(key, mm[k].sk));
        lemma_lex_asymmetric(mm[k].sk, key);
        if mm[k].sk == key {
            crate::keys::lemma_lex_irrefl(key);
        }
    }
    lemma_count_le_split(mm, key, e);
}

/// Fetches every matching row of the partition, following continuation
/// cursors until the backend reports none, whatever native page size the
/// backend imposes on each round trip.
pub fn get_all_items_paged(
    table: &Table,
    pk: &str,
    cond: Option<&Condition>,
    page_size: Option<usize>,
) -> (r: Vec<Item>)
    requires
        table.wf(),
        page_size matches Some(l) ==> l >= 1,
    ensures
        table_model(r@) == matching(table@, pk@, opt_cond_view(cond)),
{
    let ghost mm = matching(table@, pk@, opt_cond_view(cond));
    proof {
        lemma_matching_props(table@, pk@, opt_cond_view(cond));
    }
    let mut all: Vec<Item> = Vec::new();
    let mut next_token: Option<String> = None;
    let mut done = false;
    while !done
        invariant
            table.wf(),
            mm == matching(table@, pk@, opt_cond_view(cond)),
            sk_ascending(mm),
            page_size matches Some(l) ==> l >= 1,
            done ==> table_model(all@) == mm,
            !done ==> table_model(all@) =~= mm.subrange(0, all@.len() as int),
            !done ==> all@.len() <= mm.len(),
            !done ==> forward_start(mm, opt_string_view(next_token)) == all@.len(),
        decreases mm.len() - all@.len() + (if done {
            0int
        } else {
            1int
        }),
    {
        let tok_arg: Option<&str> = match &next_token {
            Some(t) => Some(t.as_str()),
            None => None,
        };
        proof {
            assert(opt_view(tok_arg) == opt_string_view(next_token));
        }
        let (items, token) = table.query_forward(pk, cond, tok_arg, page_size);
        let ghost s = all@.len() as int;
        let ghost e = s + items@.len() as int;
        let n = items.len();
        let mut k: usize = 0;
        while k < n
            invariant
                n == items.len(),
                k <= n,
                table_model(items@) == mm.subrange(s, e),
                e == s + n,
                0 <= s <= mm.len(),
                e <= mm.len(),
                table_model(all@) =~= mm.subrange(0, s + k as int),
                all@.len() == s + k,
            decreases n - k,
        {
            let copy = items[k].duplicate();
            proof {
                lemma_table_model_push(all@, copy);
                assert(table_model(items@)[k as int] == items@[k as int]@);
                assert(mm.subrange(s, e)[k as int] == mm[s + k as int]);
            }
            all.push(copy);
            k = k + 1;
        }
        match token {
            Some(c) => {
                proof {
                    lemma_cursor_resumes(mm, e);
                }
                next_token = Some(c);
            },
            None => {
                proof {
                    assert(table_model(all@) =~= mm);
                }
                done = true;
            },
        }
    }
    all
}

/// A count of rows never leaves the sequence's bounds.
pub proof fn lemma_count_le_bounds(m: Seq<ItemModel>, key: Seq<char>)
    ensures
        0 <= count_le(m, key) <= m.len(),
    decreases m.len(),
{
    if m.len() > 0 {
        lemma_count_le_bounds(m.drop_last(), key);
    }
}

/// A forward scan's start position never leaves the sequence's bounds.
pub proof fn lemma_forward_start_bounds(m: Seq<ItemModel>, after: Option<Seq<char>>)
    ensures
        0 <= forward_start(m, after) <= m.len(),
{
    match after {
        None => {},
        Some(a) => {
            lemma_count_le_bounds(m, a);
        },
    }
}

/// Requesting the first `k` rows with no cursor returns the first `k`
/// matching rows in ascending order; a following page exists exactly when
/// `k` is less than the number of matching rows, and no page precedes.
pub proof fn lemma_first_page(mm: Seq<ItemModel>, k: int)
    requires
        k >= 1,
    ensures
        ({
            let p = spec_page(mm, None, None, Some(k), None);
            &&& p.items == mm.subrange(
                0,
                if k < mm.len() {
                    k
                } else {
                    mm.len() as int
                },
            )
            &&& p.has_next_page == (k < mm.len())
            &&& !p.has_previous_page
        }),
{
}

/// Requesting the last `k` rows with no cursor returns the last `k`
/// matching rows, still in ascending order; a preceding page exists
/// exactly when `k` is less than the number of matching rows, and no page
/// follows.
pub proof fn lemma_last_page(mm: Seq<ItemModel>, k: int)
    requires
        k >= 1,
    ensures
        ({
            let p = spec_page(mm, None, None, None, Some(k));
            &&& p.items == mm.subrange(
                if mm.len() - k > 0 {
                    mm.len() - k
                } else {
                    0int
                },
                mm.len() as int,
            )
            &&& p.has_previous_page == (k < mm.len())
            &&& !p.has_next_page
        }),
{
}

/// With both `first` and `last` given, the page is the forward-limited
/// window of `first` rows; when `first` exceeds `last` the window is
/// truncated to its tail `last`, dropping from the front and keeping
/// ascending order; otherwise the window is returned whole.
pub proof fn lemma_first_last_truncation(mm: Seq<ItemModel>, f: int, l: int)
    requires
        f >= 1,
        l >= 1,
    ensures
        ({
            let base = spec_page(mm, None, None, Some(f), None).items;
            let p = spec_page(mm, None, None, Some(f), Some(l));
            &&& (f > l && l < base.len()) ==> p.items == base.subrange(
                base.len() - l,
                base.len() as int,
            )
            &&& (f > l && l >= base.len()) ==> p.items == base
            &&& f <= l ==> p.items == base
        }),
{
}

/// The pages a forward walk visits from position `s` with page size `k`,
/// concatenated in visiting order.
pub open spec fn forward_walk(mm: Seq<ItemModel>, k: int, s: int) -> Seq<ItemModel>
    decreases mm.len() - s,
    when 0 <= s <= mm.len() && k >= 1
{
    if s >= mm.len() {
        Seq::empty()
    } else {
        let e = if s + k < mm.len() {
            s + k
        } else {
            mm.len() as int
        };
        mm.subrange(s, e) + forward_walk(mm, k, e)
    }
}

/// One step of a forward walk: the page covers rows `[s, e)` of the
/// matching sequence, and its continuation cursor, when present, starts
/// the next page exactly at `e` — no row is repeated and none skipped.
pub proof fn lemma_forward_walk_step(mm: Seq<ItemModel>, k: int, after: Option<Seq<char>>)
    requires
        sk_ascending(mm),
        k >= 1,
    ensures
        ({
            let s = forward_start(mm, after);
            let e = if s + k < mm.len() {
                s + k
            } else {
                mm.len() as int
            };
            let p = spec_page(mm, after, None, Some(k), None);
            &&& 0 <= s <= mm.len()
            &&& p.items == mm.subrange(s, e)
            &&& match p.next {
                Some(c) => e < mm.len() && forward_start(mm, Some(c)) == e,
                None => e == mm.len(),
            }
        }),
{
    lemma_forward_start_bounds(mm, after);
    let s = forward_start(mm, after);
    let e = if s + k < mm.len() {
        s + k
    } else {
        mm.len() as int
    };
    if e < mm.len() {
        lemma_cursor_resumes(mm, e);
    }
}

/// Walking forward page-by-page, feeding each page's continuation cursor
/// back as the next page's `after`, reproduces the matching rows exactly
/// once each, in ascending order, for every page size `k >= 1`.
pub proof fn lemma_forward_walk_covers(mm: Seq<ItemModel>, k: int, s: int)
    requires
        k >= 1,
        0 <= s <= mm.len(),
    ensures
        forward_walk(mm, k, s) == mm.subrange(s, mm.len() as int),
    decreases mm.len() - s,
{
    if s >= mm.len() {
        assert(forward_walk(mm, k, s) =~= mm.subrange(s, mm.len() as int));
    } else {
        let e = if s + k < mm.len() {
            s + k
        } else {
            mm.len() as int
        };
        lemma_forward_walk_covers(mm, k, e);
        assert(mm.subrange(s, e) + mm.subrange(e, mm.len() as int) =~= mm.subrange(
            s,
            mm.len() as int,
        ));
    }
}

/// How one native fetch is to be issued for a page request: the scan
/// direction, the row limit, and which cursor becomes the exclusive
/// start key.
pub struct FetchPlan {
    /// Scan ascending when set, descending otherwise.
    pub scan_forward: bool,
    /// The native row limit, when one applies.
    pub limit: Option<usize>,
    /// The sort key the scan starts strictly past.
    pub exclusive_start: Option<String>,
}

/// Chooses the native fetch for a page request: `first` (or neither
/// bound) scans forward from `after`; `last` alone scans backward from
/// `before`; when both are given, `first` takes precedence for the
/// fetch.
pub fn plan_fetch(
    after: Option<String>,
    before: Option<String>,
    first: Option<usize>,
    last: Option<usize>,
) -> (r: FetchPlan)
    ensures
        match (first, last) {
            (None, None) => r.scan_forward && r.limit is None && r.exclusive_start == after,
            (None, Some(l)) => !r.scan_forward && r.limit == Some(l) && r.exclusive_start
                == before,
            (Some(f), _) => r.scan_forward && r.limit == Some(f) && r.exclusive_start == after,
        },
{
    match (first, last) {
        (None, None) => FetchPlan { scan_forward: true, limit: None, exclusive_start: after },
        (None, Some(l)) => FetchPlan {
            scan_forward: false,
            limit: Some(l),
            exclusive_start: before,
        },
        (Some(f), _) => FetchPlan { scan_forward: true, limit: Some(f), exclusive_start: after },
    }
}

/// Consolidates one native fetch into a page: a backward scan is
/// reversed back into ascending order; with both `first` and `last`
/// given and `first` the larger, the already-ascending rows are
/// truncated to their tail `last`; the boundary flags are derived from
/// the supplied cursors and the continuation.
pub fn assemble_page(
    items: Vec<Item>,
    next_sk: Option<String>,
    first: Option<usize>,
    last: Option<usize>,
    has_after: bool,
    has_before: bool,
) -> (r: Page)
    ensures
        ({
            let base = table_model(items@);
            &&& table_model(r.items@) == match (first, last) {
                (None, Some(_)) => base.reverse(),
                (Some(f), Some(l)) => if f > l {
                    if (l as int) < base.len() {
                        base.subrange(base.len() - (l as int), base.len() as int)
                    } else {
                        base
                    }
                } else {
                    base
                },
                _ => base,
            }
            &&& r.next_cursor == next_sk
            &&& r.has_previous_page == (has_after || (last is Some && next_sk is Some))
            &&& r.has_next_page == (has_before || (first is Some && next_sk is Some))
        }),
{
    let has_previous_page = has_after || (last.is_some() && next_sk.is_some());
    let has_next_page = has_before || (first.is_some() && next_sk.is_some());
    let out: Vec<Item> = match (first, last) {
        (None, Some(_)) => reverse_items(items),
        (Some(f), Some(l)) => {
            if f > l && l < items.len() {
                let from = items.len() - l;
                tail_items(items, from)
            } else {
                items
            }
        },
        _ => items,
    };
    Page { items: out, next_cursor: next_sk, has_previous_page, has_next_page }
}

/// Fetches every matching row of the partition.
pub fn get_all_items(table: &Table, pk: &str, cond: Option<&Condition>) -> (r: Vec<Item>)
    requires
        table.wf(),
    ensures
        table_model(r@) == matching(table@, pk@, opt_cond_view(cond)),
{
    get_all_items_paged(table, pk, cond, None)
}

} // verus!
