//! The batch writer.
//!
//! Multi-item writes are chunked to the backend's batch ceiling and the
//! chunks submitted in order. A chunk that fails aborts the chunks after
//! it; the chunks already applied stay applied — there is no rollback —
//! so the state after any prefix of chunks is itself pinned down here.

use vstd::prelude::*;

use crate::item::{Item, ItemModel};
use crate::store::{Table, spec_get, table_model};

verus! {

/// The backend's batch-write ceiling: the most items one native batch
/// call may carry.
pub const BATCH_CEILING: usize = 25;

/// The value of a vector of chunks.
pub open spec fn chunks_model(chunks: Seq<Vec<Item>>) -> Seq<Seq<ItemModel>> {
    chunks.map_values(|v: Vec<Item>| table_model(v@))
}

/// The items split into runs of at most `c`, every run but the last
/// exactly `c` long, in order.
pub open spec fn chunks_of(items: Seq<ItemModel>, c: int) -> Seq<Seq<ItemModel>>
    decreases items.len(),
    when c >= 1
{
    if items.len() == 0 {
        Seq::empty()
    } else if items.len() <= c {
        seq![items]
    } else {
        seq![items.subrange(0, c)] + chunks_of(items.skip(c), c)
    }
}

/// Chunking is faithful: the chunks concatenate back to the items, each
/// chunk is nonempty and within the ceiling, and their number is the
/// count of ceiling-sized calls the items need.
pub proof fn lemma_chunks_props(items: Seq<ItemModel>, c: int)
    requires
        c >= 1,
    ensures
        chunks_of(items, c).flatten() == items,
        forall|k: int|
            0 <= k < chunks_of(items, c).len() ==> 1 <= (#[trigger] chunks_of(items, c)[k]).len()
                <= c,
        chunks_of(items, c).len() == (items.len() + c - 1) / c,
    decreases items.len(),
{
    let ch = chunks_of(items, c);
    if items.len() == 0 {
        assert(ch.flatten() =~= items);
        assert((items.len() + c - 1) / c == 0) by (nonlinear_arith)
            requires
                c >= 1,
                items.len() == 0,
        ;
    } else if items.len() <= c {
        assert(ch == seq![items]);
        assert(ch.flatten() =~= items) by {
            assert(ch.flatten() == items + ch.drop_first().flatten());
            assert(Seq::<Seq<ItemModel>>::empty().flatten() =~= Seq::<ItemModel>::empty());
            assert(ch.drop_first() =~= Seq::<Seq<ItemModel>>::empty());
            assert(items + Seq::<ItemModel>::empty() =~= items);
        }
        assert((items.len() + c - 1) / c == 1) by (nonlinear_arith)
            requires
                c >= 1,
                1 <= items.len() <= c,
        ;
    } else {
        let head = items.subrange(0, c);
        let rest = items.skip(c);
        lemma_chunks_props(rest, c);
        assert(ch.drop_first() =~= chunks_of(rest, c));
        assert(ch[0] == head);
        assert(ch.flatten() == head + chunks_of(rest, c).flatten());
        assert(head + rest =~= items);
        assert(ch.len() == 1 + (rest.len() + c - 1) / c);
        assert((items.len() + c - 1) / c == 1 + (items.len() - c + c - 1) / c) by (nonlinear_arith)
            requires
                c >= 1,
                items.len() > c,
        ;
        assert forall|k: int| 0 <= k < ch.len() implies 1 <= (#[trigger] ch[k]).len() <= c by {
            if k > 0 {
                assert(ch[k] == chunks_of(rest, c)[k - 1]);
            }
        }
    }
}

/// Splits the items into batch calls: runs of at most `ceiling` items,
/// in order, every run but the last full.
pub fn chunk_items(items: Vec<Item>, ceiling: usize) -> (r: Vec<Vec<Item>>)
    requires
        ceiling >= 1,
    ensures
        chunks_model(r@) == chunks_of(table_model(items@), ceiling as int),
{
    let ghost full = table_model(items@);
    let n = items.len();
    let mut out: Vec<Vec<Item>> = Vec::new();
    let mut base: usize = 0;
    proof {
        assert(full.skip(0) =~= full);
        assert(chunks_model(out@) + chunks_of(full, ceiling as int) =~= chunks_of(
            full,
            ceiling as int,
        ));
    }
    while base < n
        invariant
            n == items.len(),
            base <= n,
            ceiling >= 1,
            full == table_model(items@),
            chunks_of(full, ceiling as int) =~= chunks_model(out@) + chunks_of(
                full.skip(base as int),
                ceiling as int,
            ),
            base < n ==> full.skip(base as int).len() > 0,
        decreases n - base,
    {
        let upper: usize = if n - base <= ceiling {
            n
        } else {
            base + ceiling
        };
        let mut chunk: Vec<Item> = Vec::new();
        let mut k: usize = base;
        while k < upper
            invariant
                n == items.len(),
                base <= k <= upper <= n,
                full == table_model(items@),
                table_model(chunk@) =~= full.subrange(base as int, k as int),
            decreases upper - k,
        {
            let copy = items[k].duplicate();
            proof {
                crate::engine::lemma_table_model_push(chunk@, copy);
                assert(full[k as int] == items@[k as int]@);
            }
            chunk.push(copy);
            k = k + 1;
        }
        proof {
            let suffix = full.skip(base as int);
            assert(table_model(chunk@) =~= suffix.subrange(0, (upper - base) as int));
            if n - base <= ceiling {
                assert(suffix.len() <= ceiling as int);
                assert(table_model(chunk@) =~= suffix);
                assert(chunks_of(suffix, ceiling as int) == seq![suffix]);
            } else {
                assert(suffix.subrange(0, ceiling as int) == table_model(chunk@));
                assert(suffix.skip(ceiling as int) =~= full.skip(upper as int));
            }
            assert(chunks_model(out@.push(chunk)) =~= chunks_model(out@).push(
                table_model(chunk@),
            )) by {
                assert forall|j: int|
                    0 <= j < out@.len() + 1 implies #[trigger] chunks_model(out@.push(chunk))[j]
                    == chunks_model(out@).push(table_model(chunk@))[j] by {
                    if j < out@.len() {
                        assert(chunks_model(out@)[j] == table_model(out@[j]@));
                    }
                }
            }
            assert(chunks_model(out@) + chunks_of(suffix, ceiling as int) =~= chunks_model(
                out@.push(chunk),
            ) + chunks_of(full.skip(upper as int), ceiling as int));
        }
        out.push(chunk);
        base = upper;
    }
    proof {
        assert(full.skip(n as int) =~= Seq::<ItemModel>::empty());
        assert(chunks_of(Seq::<ItemModel>::empty(), ceiling as int) =~= Seq::<Seq<ItemModel>>::empty());
        assert(chunks_model(out@) + Seq::<Seq<ItemModel>>::empty() =~= chunks_model(out@));
    }
    out
}

/// The last item of the run that carries the given key, if any: the one
/// whose write wins when a batch writes the key more than once.
pub open spec fn last_with_key(items: Seq<ItemModel>, pk: Seq<char>, sk: Seq<char>) -> Option<
    ItemModel,
>
    decreases items.len(),
{
    if items.len() == 0 {
        None
    } else if items.last().pk == pk && items.last().sk == sk {
        Some(items.last())
    } else {
        last_with_key(items.drop_last(), pk, sk)
    }
}

/// Applies one batch call: writes every item of the chunk, in order.
/// After the call, each key written resolves to the last item that wrote
/// it, and every other key is untouched.
pub fn apply_chunk(table: &mut Table, chunk: &Vec<Item>)
    requires
        old(table).wf(),
    ensures
        final(table).wf(),
        forall|p: Seq<char>, s: Seq<char>|
            #[trigger] spec_get(final(table)@, p, s) == match last_with_key(
                table_model(chunk@),
                p,
                s,
            ) {
                Some(x) => Some(x),
                None => spec_get(old(table)@, p, s),
            },
{
    let ghost full = table_model(chunk@);
    let n = chunk.len();
    let mut i: usize = 0;
    while i < n
        invariant
            n == chunk.len(),
            i <= n,
            full == table_model(chunk@),
            table.wf(),
            forall|p: Seq<char>, s: Seq<char>|
                #[trigger] spec_get(table@, p, s) == match last_with_key(
                    full.subrange(0, i as int),
                    p,
                    s,
                ) {
                    Some(x) => Some(x),
                    None => spec_get(old(table)@, p, s),
                },
        decreases n - i,
    {
        let copy = chunk[i].duplicate();
        let ghost x = copy@;
        proof {
            assert(full[i as int] == chunk@[i as int]@);
        }
        table.put(copy);
        proof {
            assert forall|p: Seq<char>, s: Seq<char>|
                #[trigger] spec_get(table@, p, s) == match last_with_key(
                    full.subrange(0, i as int + 1),
                    p,
                    s,
                ) {
                    Some(y) => Some(y),
                    None => spec_get(old(table)@, p, s),
                } by {
                assert(full.subrange(0, i as int + 1).drop_last() =~= full.subrange(0, i as int));
                assert(full.subrange(0, i as int + 1).last() == x);
            }
        }
        i = i + 1;
    }
    proof {
        assert(full.subrange(0, n as int) =~= full);
    }
}

/// Writes the items in ceiling-sized batch calls, submitted in order.
/// After the whole write, every key written resolves to the last item
/// that wrote it, and every other key is untouched.
pub fn batch_put_items(table: &mut Table, items: Vec<Item>)
    requires
        old(table).wf(),
    ensures
        final(table).wf(),
        forall|p: Seq<char>, s: Seq<char>|
            #[trigger] spec_get(final(table)@, p, s) == match last_with_key(
                table_model(items@),
                p,
                s,
            ) {
                Some(x) => Some(x),
                None => spec_get(old(table)@, p, s),
            },
{
    let ghost full = table_model(items@);
    let chunks = chunk_items(items, BATCH_CEILING);
    proof {
        lemma_chunks_props(full, BATCH_CEILING as int);
    }
    let n = chunks.len();
    let mut i: usize = 0;
    while i < n
        invariant
            n == chunks.len(),
            i <= n,
            chunks_model(chunks@) == chunks_of(full, BATCH_CEILING as int),
            chunks_model(chunks@).flatten() == full,
            table.wf(),
            forall|p: Seq<char>, s: Seq<char>|
                #[trigger] spec_get(table@, p, s) == match last_with_key(
                    chunks_model(chunks@).subrange(0, i as int).flatten(),
                    p,
                    s,
                ) {
                    Some(x) => Some(x),
                    None => spec_get(old(table)@, p, s),
                },
        decreases n - i,
    {
        proof {
            assert(chunks_model(chunks@)[i as int] == table_model(chunks@[i as int]@));
        }
        apply_chunk(table, &chunks[i]);
        proof {
            let cm = chunks_model(chunks@);
            lemma_flatten_prefix_step(cm, i as int);
            assert forall|p: Seq<char>, s: Seq<char>|
                #[trigger] spec_get(table@, p, s) == match last_with_key(
                    cm.subrange(0, i as int + 1).flatten(),
                    p,
                    s,
                ) {
                    Some(x) => Some(x),
                    None => spec_get(old(table)@, p, s),
                } by {
                lemma_last_with_key_concat(cm.subrange(0, i as int).flatten(), cm[i as int], p, s);
            }
        }
        i = i + 1;
    }
    proof {
        assert(chunks_model(chunks@).subrange(0, n as int) =~= chunks_model(chunks@));
    }
}

/// Flattening one more chunk appends its items.
proof fn lemma_flatten_prefix_step(cm: Seq<Seq<ItemModel>>, i: int)
    requires
        0 <= i < cm.len(),
    ensures
        cm.subrange(0, i + 1).flatten() == cm.subrange(0, i).flatten() + cm[i],
{
    let pre = cm.subrange(0, i);
    let ext = cm.subrange(0, i + 1);
    assert(ext =~= pre.push(cm[i]));
    lemma_flatten_push(pre, cm[i]);
}

/// Flattening distributes over appending one run.
proof fn lemma_flatten_push(cm: Seq<Seq<ItemModel>>, x: Seq<ItemModel>)
    ensures
        cm.push(x).flatten() == cm.flatten() + x,
    decreases cm.len(),
{
    if cm.len() == 0 {
        assert(cm.push(x).flatten() == x + cm.push(x).drop_first().flatten());
        assert(cm.push(x).drop_first() =~= Seq::<Seq<ItemModel>>::empty());
        assert(Seq::<Seq<ItemModel>>::empty().flatten() =~= Seq::<ItemModel>::empty());
        assert(x + Seq::<ItemModel>::empty() =~= x);
        assert(cm.flatten() + x =~= x);
    } else {
        assert(cm.push(x)[0] == cm[0]);
        assert(cm.push(x).drop_first() =~= cm.drop_first().push(x));
        lemma_flatten_push(cm.drop_first(), x);
        assert(cm.push(x).flatten() == cm[0] + cm.drop_first().push(x).flatten());
        assert(cm[0] + (cm.drop_first().flatten() + x) =~= (cm[0] + cm.drop_first().flatten())
            + x);
    }
}

/// Searching a concatenation for the last write of a key looks at the
/// right part first.
proof fn lemma_last_with_key_concat(a: Seq<ItemModel>, b: Seq<ItemModel>, pk: Seq<char>, sk: Seq<char>)
    ensures
        last_with_key(a + b, pk, sk) == if last_with_key(b, pk, sk) is Some {
            last_with_key(b, pk, sk)
        } else {
            last_with_key(a, pk, sk)
        },
    decreases b.len(),
{
    if b.len() == 0 {
        assert(a + b =~= a);
    } else {
        assert((a + b).last() == b.last());
        assert((a + b).drop_last() =~= a + b.drop_last());
        lemma_last_with_key_concat(a, b.drop_last(), pk, sk);
    }
}

} // verus!
