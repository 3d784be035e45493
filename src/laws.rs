use vstd::prelude::*;
use crate::client::{
    absorbed,
    all_cached,
    batch_outcome,
    items_step,
    lookup_all,
    missing_from,
    request_step,
    selected,
    Category,
    FetchError,
    ItemView,
    StepModel,
};

verus! {

/// No two items of `f` carry the same id.
pub open spec fn distinct_ids(f: Seq<ItemView>) -> bool {
    forall|i: int, j: int| 0 <= i < j < f.len() ==> #[trigger] f[i].id != #[trigger] f[j].id
}

/// The ids of the items of `f`, in order.
pub open spec fn ids_of(f: Seq<ItemView>) -> Seq<i32> {
    f.map_values(|x: ItemView| x.id)
}

/// Storing a batch keeps every entry that was there, adds an entry for each
/// item of the batch, and adds nothing else.
pub proof fn lemma_absorbed_keeps_and_covers(store: Map<i32, ItemView>, f: Seq<ItemView>)
    ensures
        forall|k: i32| #[trigger]
            store.contains_key(k) ==> absorbed(store, f).contains_key(k) && absorbed(store, f)[k]
                == store[k],
        forall|j: int| 0 <= j < f.len() ==> absorbed(store, f).contains_key(#[trigger] f[j].id),
        forall|k: i32| #[trigger]
            absorbed(store, f).contains_key(k) ==> store.contains_key(k) || exists|j: int|
                0 <= j < f.len() && #[trigger] f[j].id == k,
    decreases f.len(),
{
    if f.len() > 0 {
        let g = f.drop_last();
        lemma_absorbed_keeps_and_covers(store, g);
        assert forall|k: i32| #[trigger]
            absorbed(store, f).contains_key(k) implies store.contains_key(k) || exists|j: int|
                0 <= j < f.len() && #[trigger] f[j].id == k by {
            if !store.contains_key(k) && k != f.last().id {
                assert(absorbed(store, g).contains_key(k));
                let j = choose|j: int| 0 <= j < g.len() && #[trigger] g[j].id == k;
                assert(g[j] == f[j]);
                assert(f[j].id == k);
            } else if !store.contains_key(k) {
                assert(f[f.len() - 1].id == k);
            }
        }
        assert forall|j: int| 0 <= j < f.len() implies absorbed(store, f).contains_key(
            #[trigger] f[j].id,
        ) by {
            if j < g.len() {
                assert(g[j] == f[j]);
            }
        }
    }
}

/// Where the ids of a batch are distinct, each item of the batch whose id
/// was not stored before is stored as it came.
pub proof fn lemma_absorbed_values(store: Map<i32, ItemView>, f: Seq<ItemView>)
    requires
        distinct_ids(f),
    ensures
        forall|j: int|
            0 <= j < f.len() && !store.contains_key(#[trigger] f[j].id) ==> absorbed(store, f)[f[j].id]
                == f[j],
    decreases f.len(),
{
    if f.len() > 0 {
        let g = f.drop_last();
        assert(distinct_ids(g)) by {
            assert forall|i: int, j: int| 0 <= i < j < g.len() implies #[trigger] g[i].id
                != #[trigger] g[j].id by {
                assert(f[i] == g[i] && f[j] == g[j]);
            }
        }
        lemma_absorbed_values(store, g);
        lemma_absorbed_keeps_and_covers(store, g);
        assert forall|j: int|
            0 <= j < f.len() && !store.contains_key(#[trigger] f[j].id) implies absorbed(
            store,
            f,
        )[f[j].id] == f[j] by {
            let last = f.last();
            if j < g.len() {
                assert(g[j] == f[j]);
                assert(f[j].id != f[f.len() - 1].id);
            } else {
                if absorbed(store, g).contains_key(last.id) {
                    let i = choose|i: int| 0 <= i < g.len() && #[trigger] g[i].id == last.id;
                    assert(f[i].id == f[f.len() - 1].id);
                }
            }
        }
    }
}

/// An item, once stored, is never replaced: whatever later batches bring
/// under its id, the store keeps the first value.
pub proof fn law_stored_item_never_replaced(store: Map<i32, ItemView>, later: Seq<ItemView>, k: i32)
    requires
        store.contains_key(k),
    ensures
        absorbed(store, later).contains_key(k),
        absorbed(store, later)[k] == store[k],
{
    lemma_absorbed_keeps_and_covers(store, later);
}

/// Once a batch is stored, asking again for any of its ids (or for ids that
/// were stored already) needs no fetch, and yields the stored items in the
/// order asked for.
pub proof fn law_fetched_items_need_no_second_fetch(
    store: Map<i32, ItemView>,
    fetched: Seq<ItemView>,
    ids: Seq<i32>,
)
    requires
        forall|i: int|
            0 <= i < ids.len() ==> store.contains_key(#[trigger] ids[i]) || ids_of(
                fetched,
            ).contains(ids[i]),
    ensures
        items_step(ids, absorbed(store, fetched)) == StepModel::Ready(
            lookup_all(ids, absorbed(store, fetched)),
        ),
{
    lemma_absorbed_keeps_and_covers(store, fetched);
    assert forall|i: int| 0 <= i < ids.len() implies absorbed(store, fetched).contains_key(
        #[trigger] ids[i],
    ) by {
        if !store.contains_key(ids[i]) {
            let j = choose|j: int| 0 <= j < fetched.len() && #[trigger] ids_of(fetched)[j] == ids[i];
            assert(fetched[j].id == ids[i]);
        }
    }
}

/// A category whose id list is held never asks for the list again,
/// whatever the count.
pub proof fn law_id_list_fetched_once(
    c: Category,
    list: Seq<i32>,
    store: Map<i32, ItemView>,
    count: int,
)
    ensures
        !(request_step(c, Some(list), store, count) is NeedIds),
{
}

/// The outcome of a batch does not depend on the order in which its items
/// arrived: two arrival orders of the same items give the same store, and a
/// request then yields the items in the order of its ids.
pub proof fn law_arrival_order_irrelevant(
    store: Map<i32, ItemView>,
    f1: Seq<ItemView>,
    f2: Seq<ItemView>,
    ids: Seq<i32>,
)
    requires
        distinct_ids(f1),
        distinct_ids(f2),
        forall|x: ItemView| f1.contains(x) <==> f2.contains(x),
    ensures
        absorbed(store, f1) == absorbed(store, f2),
        items_step(ids, absorbed(store, f1)) == items_step(ids, absorbed(store, f2)),
        all_cached(ids, absorbed(store, f1)) ==> items_step(ids, absorbed(store, f1))
            == StepModel::Ready(lookup_all(ids, absorbed(store, f1))),
{
    let a = absorbed(store, f1);
    let b = absorbed(store, f2);
    lemma_absorbed_keeps_and_covers(store, f1);
    lemma_absorbed_keeps_and_covers(store, f2);
    lemma_absorbed_values(store, f1);
    lemma_absorbed_values(store, f2);
    assert forall|k: i32| a.contains_key(k) <==> b.contains_key(k) by {
        if a.contains_key(k) && !store.contains_key(k) {
            let j = choose|j: int| 0 <= j < f1.len() && #[trigger] f1[j].id == k;
            assert(f1.contains(f1[j]));
            let i = choose|i: int| 0 <= i < f2.len() && f2[i] == f1[j];
            assert(f2[i].id == k);
        }
        if b.contains_key(k) && !store.contains_key(k) {
            let j = choose|j: int| 0 <= j < f2.len() && #[trigger] f2[j].id == k;
            assert(f2.contains(f2[j]));
            let i = choose|i: int| 0 <= i < f1.len() && f1[i] == f2[j];
            assert(f1[i].id == k);
        }
    }
    assert forall|k: i32| a.contains_key(k) implies a[k] == b[k] by {
        if !store.contains_key(k) {
            let j = choose|j: int| 0 <= j < f1.len() && #[trigger] f1[j].id == k;
            assert(f1.contains(f1[j]));
            let i = choose|i: int| 0 <= i < f2.len() && f2[i] == f1[j];
            assert(f2[i].id == k);
        }
    }
    assert(a =~= b);
}

/// A batch cut short by a failed fetch reports that failure, and every item
/// that did arrive is stored all the same: a later request for those ids
/// needs no fetch.
pub proof fn law_failed_batch_keeps_arrivals(
    store: Map<i32, ItemView>,
    fetched: Seq<ItemView>,
    requested: Seq<i32>,
    e: FetchError,
)
    ensures
        batch_outcome(requested, absorbed(store, fetched), Some(e)) == Err::<(), FetchError>(e),
        items_step(ids_of(fetched), absorbed(store, fetched)) == StepModel::Ready(
            lookup_all(ids_of(fetched), absorbed(store, fetched)),
        ),
{
    assert forall|i: int| 0 <= i < ids_of(fetched).len() implies store.contains_key(
        #[trigger] ids_of(fetched)[i],
    ) || ids_of(fetched).contains(ids_of(fetched)[i]) by {
        assert(ids_of(fetched)[i] == ids_of(fetched)[i]);
    }
    law_fetched_items_need_no_second_fetch(store, fetched, ids_of(fetched));
}

/// A count beyond the length of a category's list is clamped to it: the
/// request never asks for the list again, and what it yields has at most as
/// many items as the list has ids.
pub proof fn law_count_clamped(c: Category, list: Seq<i32>, store: Map<i32, ItemView>, count: int)
    requires
        count >= 0,
    ensures
        selected(list, count).len() == if count < list.len() {
            count
        } else {
            list.len() as int
        },
        !(request_step(c, Some(list), store, count) is NeedIds),
        request_step(c, Some(list), store, count) matches StepModel::Ready(v) ==> v.len() <= list.len(),
{
}

/// A batch that fetched every missing id without failure completes the
/// request: asking again needs no fetch and yields the items in order.
pub proof fn law_successful_batch_completes(
    store: Map<i32, ItemView>,
    ids: Seq<i32>,
    requested: Seq<i32>,
    fetched: Seq<ItemView>,
)
    requires
        forall|k: i32| missing_from(ids, store).contains(k) ==> requested.contains(k),
        batch_outcome(requested, absorbed(store, fetched), None) == Ok::<(), FetchError>(()),
    ensures
        items_step(ids, absorbed(store, fetched)) == StepModel::Ready(
            lookup_all(ids, absorbed(store, fetched)),
        ),
{
    let s = absorbed(store, fetched);
    lemma_absorbed_keeps_and_covers(store, fetched);
    assert(all_cached(requested, s));
    assert forall|i: int| 0 <= i < ids.len() implies s.contains_key(#[trigger] ids[i]) by {
        if !store.contains_key(ids[i]) {
            assert(ids.contains(ids[i]));
            assert(missing_from(ids, store).contains(ids[i]));
            assert(requested.contains(ids[i]));
            let t = choose|t: int| 0 <= t < requested.len() && requested[t] == ids[i];
            assert(s.contains_key(requested[t]));
        }
    }
}

} // verus!
