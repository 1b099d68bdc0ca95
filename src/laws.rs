use vstd::prelude::*;
use crate::todo::TodoView;
use crate::records::{visible, fetch, with_text, with_deleted, past, is_page};
use crate::store::{StoreView, valid, empty_store, create};

verus! {

proof fn lemma_counter_after(texts: Seq<Seq<char>>, states: Seq<StoreView>, i: int)
    requires
        states.len() == texts.len() + 1,
        states[0] == empty_store(),
        forall|j: int| 0 <= j < texts.len() ==> #[trigger] states[j + 1] == create(states[j], texts[j]),
        0 <= i < states.len(),
    ensures
        states[i].next_id == i + 1,
    decreases i,
{
    if i > 0 {
        lemma_counter_after(texts, states, i - 1);
        assert(states[(i - 1) + 1] == create(states[i - 1], texts[i - 1]));
    }
}

/// Starting from the empty store, the ids that a run of creates returns are
/// 1, 2, 3, ... in that order: strictly increasing, and never repeated.
/// `states[j]` is the store before the `j`-th create, `ids[j]` what it returns.
pub proof fn lemma_create_ids_ascending(texts: Seq<Seq<char>>, states: Seq<StoreView>, ids: Seq<nat>)
    requires
        states.len() == texts.len() + 1,
        ids.len() == texts.len(),
        states[0] == empty_store(),
        forall|j: int|
            0 <= j < texts.len() ==> #[trigger] states[j + 1] == create(states[j], texts[j]) && ids[j]
                == states[j].next_id,
    ensures
        forall|j: int| 0 <= j < ids.len() ==> #[trigger] ids[j] == j + 1,
        forall|i: int, j: int| 0 <= i < j < ids.len() ==> ids[i] < ids[j],
{
    assert forall|j: int| 0 <= j < ids.len() implies #[trigger] ids[j] == j + 1 by {
        lemma_counter_after(texts, states, j);
        assert(states[j + 1] == create(states[j], texts[j]));
    }
    assert forall|i: int, j: int| 0 <= i < j < ids.len() implies ids[i] < ids[j] by {
        assert(ids[i] == i + 1);
        assert(ids[j] == j + 1);
    }
}

/// Right after a create, a lookup of the returned id reports a record with
/// that id, the given text, and the deleted flag unset.
pub proof fn lemma_fetch_after_create(s: StoreView, text: Seq<char>)
    requires
        valid(s),
        s.next_id < u64::MAX,
    ensures
        fetch(create(s, text).records, s.next_id as u64) == Some(
            TodoView { id: s.next_id as u64, text, deleted: false },
        ),
{
}

/// After a soft delete of an existing record, a lookup of its id reports
/// nothing, and no page contains the id, whatever its cursor and limit.
pub proof fn lemma_deleted_hidden(
    r: Map<u64, TodoView>,
    id: u64,
    cursor: Option<u64>,
    limit: nat,
    ids: Seq<u64>,
)
    requires
        r.contains_key(id),
        is_page(with_deleted(r, id), cursor, limit, ids),
    ensures
        fetch(with_deleted(r, id), id) is None,
        !ids.contains(id),
{
    if ids.contains(id) {
        let i = choose|i: int| 0 <= i < ids.len() && ids[i] == id;
        assert(visible(with_deleted(r, id), ids[i]));
    }
}

/// A text update of a visible record makes later lookups report the new
/// text; on a deleted or missing record it changes nothing.
pub proof fn lemma_update_text(r: Map<u64, TodoView>, id: u64, text: Seq<char>)
    ensures
        visible(r, id) ==> fetch(with_text(r, id, text), id) == Some(TodoView { text, ..r[id] }),
        !visible(r, id) ==> with_text(r, id, text) == r,
{
}

/// Paging on from the last id of a page continues the listing: the two pages
/// together are the page of both limits together. So repeated calls list
/// every visible record exactly once, in ascending id order.
pub proof fn lemma_pages_continue(
    r: Map<u64, TodoView>,
    cursor: Option<u64>,
    limit: nat,
    first: Seq<u64>,
    limit2: nat,
    second: Seq<u64>,
)
    requires
        is_page(r, cursor, limit, first),
        first.len() > 0,
        is_page(r, Some(first.last()), limit2, second),
    ensures
        is_page(r, cursor, limit + limit2, first + second),
{
    let both = first + second;
    let last = first.last();
    assert forall|k: u64| visible(r, k) && past(cursor, k) && last < k implies !first.contains(k) by {
        if first.contains(k) {
            let i = choose|i: int| 0 <= i < first.len() && first[i] == k;
            assert(i == first.len() - 1 || first[i] < first[first.len() - 1]);
        }
    }
    if first.len() < limit && second.len() > 0 {
        assert(visible(r, second[0]) && past(Some(last), second[0]));
        assert(first.contains(second[0]));
        assert(false);
    }
    assert forall|i: int, j: int| 0 <= i < j < both.len() implies both[i] < both[j] by {
        if j >= first.len() && i < first.len() {
            assert(past(Some(last), second[j - first.len()]));
            assert(i == first.len() - 1 || first[i] < last);
        }
    }
    assert forall|i: int| 0 <= i < both.len() implies visible(r, #[trigger] both[i]) && past(cursor, both[i]) by {
        if i >= first.len() {
            assert(visible(r, second[i - first.len()]) && past(Some(last), second[i - first.len()]));
            assert(past(cursor, last));
        }
    }
    assert forall|k: u64| visible(r, k) && past(cursor, k) implies #[trigger] both.contains(k) || (both.len()
        == limit + limit2 && (limit + limit2 == 0 || both[both.len() - 1] < k)) by {
        if first.contains(k) {
            let i = choose|i: int| 0 <= i < first.len() && first[i] == k;
            assert(both[i] == k);
        } else {
            assert(first.len() == limit);
            assert(last < k);
            if second.contains(k) {
                let i = choose|i: int| 0 <= i < second.len() && second[i] == k;
                assert(both[first.len() + i] == k);
            }
        }
    }
}

proof fn lemma_page_prefix_agrees(
    r: Map<u64, TodoView>,
    cursor: Option<u64>,
    limit: nat,
    a: Seq<u64>,
    b: Seq<u64>,
    i: int,
)
    requires
        is_page(r, cursor, limit, a),
        is_page(r, cursor, limit, b),
        0 <= i < a.len(),
        i < b.len(),
    ensures
        forall|j: int| 0 <= j <= i ==> a[j] == b[j],
    decreases i,
{
    if i > 0 {
        lemma_page_prefix_agrees(r, cursor, limit, a, b, i - 1);
    }
    assert(visible(r, a[i]) && past(cursor, a[i]));
    assert(visible(r, b[i]) && past(cursor, b[i]));
    if b.contains(a[i]) {
        let p = choose|p: int| 0 <= p < b.len() && b[p] == a[i];
        if p < i {
            assert(a[p] == b[p]);
        }
        assert(b[i] <= a[i]);
    } else {
        assert(b[i] <= b[b.len() - 1]);
    }
    if a.contains(b[i]) {
        let p = choose|p: int| 0 <= p < a.len() && a[p] == b[i];
        if p < i {
            assert(a[p] == b[p]);
        }
        assert(a[i] <= b[i]);
    } else {
        assert(a[i] <= a[a.len() - 1]);
    }
}

proof fn lemma_page_not_longer(
    r: Map<u64, TodoView>,
    cursor: Option<u64>,
    limit: nat,
    a: Seq<u64>,
    b: Seq<u64>,
)
    requires
        is_page(r, cursor, limit, a),
        is_page(r, cursor, limit, b),
    ensures
        b.len() <= a.len(),
{
    if a.len() < b.len() {
        let n = a.len() as int;
        assert(visible(r, b[n]) && past(cursor, b[n]));
        assert(a.contains(b[n]));
        let p = choose|p: int| 0 <= p < a.len() && a[p] == b[n];
        lemma_page_prefix_agrees(r, cursor, limit, a, b, p);
    }
}

/// Pages are determined by the records, the cursor and the limit: two pages
/// for the same three are the same sequence of ids.
pub proof fn lemma_page_unique(r: Map<u64, TodoView>, cursor: Option<u64>, limit: nat, a: Seq<u64>, b: Seq<u64>)
    requires
        is_page(r, cursor, limit, a),
        is_page(r, cursor, limit, b),
    ensures
        a == b,
{
    lemma_page_not_longer(r, cursor, limit, a, b);
    lemma_page_not_longer(r, cursor, limit, b, a);
    if a.len() > 0 {
        lemma_page_prefix_agrees(r, cursor, limit, a, b, a.len() - 1);
    }
    assert(a =~= b);
}

/// A page that comes back empty under a limit above zero means that no
/// visible record lies past its cursor: the listing is done.
pub proof fn lemma_empty_page_exhausted(r: Map<u64, TodoView>, cursor: Option<u64>, limit: nat, ids: Seq<u64>)
    requires
        is_page(r, cursor, limit, ids),
        limit > 0,
        ids.len() == 0,
    ensures
        forall|k: u64| visible(r, k) ==> !past(cursor, k),
{
    assert forall|k: u64| visible(r, k) implies !past(cursor, k) by {
        if past(cursor, k) {
            assert(ids.contains(k));
        }
    }
}

/// A cursor need not name a record: the page past an unknown id holds the
/// visible records with greater ids, all of them unless the limit is reached.
pub proof fn lemma_unknown_cursor(r: Map<u64, TodoView>, c: u64, limit: nat, ids: Seq<u64>)
    requires
        !r.contains_key(c),
        is_page(r, Some(c), limit, ids),
    ensures
        forall|i: int| 0 <= i < ids.len() ==> c < #[trigger] ids[i] && visible(r, ids[i]),
        forall|k: u64| visible(r, k) && c < k ==> #[trigger] ids.contains(k) || ids.len() == limit,
{
    assert forall|i: int| 0 <= i < ids.len() implies c < #[trigger] ids[i] && visible(r, ids[i]) by {
        assert(past(Some(c), ids[i]));
    }
    assert forall|k: u64| visible(r, k) && c < k implies #[trigger] ids.contains(k) || ids.len() == limit by {
        assert(past(Some(c), k));
    }
}

} // verus!
