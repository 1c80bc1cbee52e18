//! Listing what a run of events shows: each item once, in the order in which
//! it is first shown.

use vstd::prelude::*;

verus! {

/// Position `at` of `events` shows `item`.
pub open spec fn shown_at<T>(events: Seq<Option<T>>, at: int, item: T) -> bool {
    0 <= at < events.len() && events[at] == Some(item)
}

/// Some position before `limit` shows `item`.
pub open spec fn shown_before<T>(events: Seq<Option<T>>, limit: int, item: T) -> bool {
    exists|at: int| at < limit && #[trigger] shown_at(events, at, item)
}

/// Wherever `later` is shown, `earlier` has been shown before.
#[verifier::opaque]
pub open spec fn precedes<T>(events: Seq<Option<T>>, earlier: T, later: T) -> bool {
    forall|at: int| #[trigger] shown_at(events, at, later) ==> shown_before(events, at, earlier)
}

/// The items stand in the order in which `events` first shows them.
pub open spec fn listed_in_order<T>(items: Seq<T>, events: Seq<Option<T>>) -> bool {
    forall|i: int, j: int|
        0 <= i < j < items.len() ==> precedes(events, #[trigger] items[i], #[trigger] items[j])
}

/// `items` lists what the first `limit` positions of `events` show: every
/// item shown there and no other, each once, in the order of first showing.
pub open spec fn lists<T>(items: Seq<T>, events: Seq<Option<T>>, limit: int) -> bool {
    &&& items.no_duplicates()
    &&& forall|item: T| #[trigger] items.contains(item) <==> shown_before(events, limit, item)
    &&& listed_in_order(items, events)
}

/// The list that `items` becomes when one more position is read, which
/// shows `event`: an item not yet listed goes last.
pub open spec fn with_event<T>(items: Seq<T>, event: Option<T>) -> Seq<T> {
    match event {
        Some(item) => if items.contains(item) {
            items
        } else {
            items.push(item)
        },
        None => items,
    }
}

/// Where the first `limit` positions show nothing, the empty list lists them.
pub proof fn lemma_lists_nothing<T>(events: Seq<Option<T>>, limit: int)
    requires
        forall|at: int| 0 <= at < limit && at < events.len() ==> events[at] is None,
    ensures
        lists(Seq::<T>::empty(), events, limit),
{
    let items = Seq::<T>::empty();
    assert forall|item: T| #[trigger]
        items.contains(item) <==> shown_before(events, limit, item) by {
        if shown_before(events, limit, item) {
            let at = choose|at: int| at < limit && #[trigger] shown_at(events, at, item);
            assert(events[at] is None);
        }
    }
}

/// Reading one more position keeps a list a list: what the position shows
/// joins the list unless it is listed or the position shows nothing.
pub proof fn lemma_lists_next<T>(items: Seq<T>, events: Seq<Option<T>>, limit: int)
    requires
        lists(items, events, limit),
        0 <= limit < events.len(),
    ensures
        lists(with_event(items, events[limit]), events, limit + 1),
{
    reveal(precedes);
    let after = with_event(items, events[limit]);
    assert forall|item: T| #[trigger]
        after.contains(item) <==> shown_before(events, limit + 1, item) by {
        assert(items.contains(item) <==> shown_before(events, limit, item));
        if shown_before(events, limit + 1, item) {
            let at = choose|at: int| at < limit + 1 && #[trigger] shown_at(events, at, item);
            if at == limit {
                if !items.contains(item) {
                    assert(after[items.len() as int] == item);
                }
            } else {
                assert(at < limit && shown_at(events, at, item));
                let k = choose|k: int| 0 <= k < items.len() && items[k] == item;
                assert(after[k] == item);
            }
        }
        if after.contains(item) {
            let k = choose|k: int| 0 <= k < after.len() && after[k] == item;
            if k < items.len() {
                assert(items[k] == item);
                assert(items.contains(item));
                let at = choose|at: int| at < limit && #[trigger] shown_at(events, at, item);
                assert(at < limit + 1 && shown_at(events, at, item));
            } else {
                assert(shown_at(events, limit, item));
            }
        }
    }
    if after.len() > items.len() {
        let last = items.len() as int;
        let new = after[last];
        assert(events[limit] == Some(new));
        assert(!shown_before(events, limit, new));
        assert forall|i: int, j: int| 0 <= i < after.len() && 0 <= j < after.len() && i != j implies after[i] != after[j] by {
            if i < last {
                assert(items.contains(items[i]));
            }
            if j < last {
                assert(items.contains(items[j]));
            }
        }
        assert forall|i: int, j: int| 0 <= i < j < after.len() implies precedes(
            events,
            #[trigger] after[i],
            #[trigger] after[j],
        ) by {
            if j < last {
                assert(precedes(events, items[i], items[j]));
            } else {
                assert(items.contains(items[i]));
                assert(shown_before(events, limit, items[i]));
                let q = choose|q: int| q < limit && #[trigger] shown_at(events, q, items[i]);
                assert forall|at: int| #[trigger] shown_at(events, at, new) implies shown_before(
                    events,
                    at,
                    after[i],
                ) by {
                    if at < limit {
                        assert(shown_before(events, limit, new));
                    }
                    assert(q < at && shown_at(events, q, after[i]));
                }
            }
        }
    }
}

/// Where `u` precedes `v`, the first showing of `u` has no showing of `v`
/// before it.
proof fn lemma_shown_first<T>(events: Seq<Option<T>>, u: T, v: T, at: int) -> (first: int)
    requires
        shown_at(events, at, u),
        precedes(events, u, v),
    ensures
        first <= at,
        shown_at(events, first, u),
        !shown_before(events, first, v),
    decreases at,
{
    reveal(precedes);
    if shown_before(events, at, v) {
        let q = choose|q: int| q < at && #[trigger] shown_at(events, q, v);
        assert(shown_before(events, q, u));
        let r = choose|r: int| r < q && #[trigger] shown_at(events, r, u);
        lemma_shown_first(events, u, v, r)
    } else {
        at
    }
}

/// Two items that are shown cannot each precede the other.
proof fn lemma_one_way<T>(events: Seq<Option<T>>, u: T, v: T, at: int)
    requires
        shown_at(events, at, u),
        precedes(events, u, v),
    ensures
        !precedes(events, v, u),
{
    reveal(precedes);
    let first = lemma_shown_first(events, u, v, at);
    assert(shown_at(events, first, u));
}

/// In a list, an item precedes those listed after it.
proof fn lemma_listed_precedes<T>(items: Seq<T>, events: Seq<Option<T>>, i: int, j: int)
    requires
        listed_in_order(items, events),
        0 <= i < j < items.len(),
    ensures
        precedes(events, items[i], items[j]),
{
}

/// Two lists of the same events agree on their first `k` places.
proof fn lemma_lists_agree<T>(a: Seq<T>, b: Seq<T>, events: Seq<Option<T>>, limit: int, k: int)
    requires
        lists(a, events, limit),
        lists(b, events, limit),
        a.len() == b.len(),
        0 <= k <= a.len(),
    ensures
        forall|i: int| 0 <= i < k ==> a[i] == b[i],
    decreases k,
{
    if k > 0 {
        lemma_lists_agree(a, b, events, limit, k - 1);
        let m = k - 1;
        let u = a[m];
        let v = b[m];
        if u != v {
            assert(a.contains(u));
            assert(b.contains(v));
            assert(b.contains(u) && a.contains(v));
            let j = choose|j: int| 0 <= j < b.len() && b[j] == u;
            let jj = choose|jj: int| 0 <= jj < a.len() && a[jj] == v;
            assert(j > m) by {
                if j < m {
                    assert(a[j] == b[j]);
                }
            }
            assert(jj > m) by {
                if jj < m {
                    assert(a[jj] == b[jj]);
                }
            }
            lemma_listed_precedes(a, events, m, jj);
            lemma_listed_precedes(b, events, m, j);
            let at = choose|at: int| at < limit && #[trigger] shown_at(events, at, u);
            lemma_one_way(events, u, v, at);
        }
    }
}

/// What a run of events shows has one list only.
pub proof fn lemma_one_list<T>(a: Seq<T>, b: Seq<T>, events: Seq<Option<T>>, limit: int)
    requires
        lists(a, events, limit),
        lists(b, events, limit),
    ensures
        a == b,
{
    a.unique_seq_to_set();
    b.unique_seq_to_set();
    assert(a.to_set() =~= b.to_set());
    lemma_lists_agree(a, b, events, limit, a.len() as int);
    assert(a =~= b);
}

/// A list starts with what the first position shows.
pub proof fn lemma_list_starts<T>(items: Seq<T>, events: Seq<Option<T>>, limit: int, first: T)
    requires
        lists(items, events, limit),
        0 < limit,
        shown_at(events, 0, first),
    ensures
        items.len() > 0,
        items[0] == first,
{
    assert(shown_before(events, limit, first));
    assert(items.contains(first));
    let j = choose|j: int| 0 <= j < items.len() && items[j] == first;
    if j > 0 {
        reveal(precedes);
        assert(precedes(events, items[0], items[j]));
        assert(shown_before(events, 0, items[0]));
    }
}

} // verus!
