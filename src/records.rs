use vstd::prelude::*;
use std::collections::HashMap;
use vstd::std_specs::iter::IteratorSpec;
use crate::todo::{Todo, TodoView};

verus! {

broadcast use vstd::std_specs::hash::group_hash_axioms;

/// The records of a map, as views.
pub open spec fn records(m: Map<u64, Todo>) -> Map<u64, TodoView> {
    m.map_values(|t: Todo| t@)
}

/// Every record is stored under its own id.
pub open spec fn well_keyed(r: Map<u64, TodoView>) -> bool {
    forall|k: u64| #[trigger] r.contains_key(k) ==> r[k].id == k
}

/// The record under `id` exists and has not been deleted.
pub open spec fn visible(r: Map<u64, TodoView>, id: u64) -> bool {
    r.contains_key(id) && !r[id].deleted
}

/// What a lookup of `id` reports: the record if it is visible, else nothing.
pub open spec fn fetch(r: Map<u64, TodoView>, id: u64) -> Option<TodoView> {
    if visible(r, id) {
        Some(r[id])
    } else {
        None
    }
}

/// The records after a text update of `id`: the text is replaced if the
/// record is visible, and nothing changes otherwise.
pub open spec fn with_text(r: Map<u64, TodoView>, id: u64, text: Seq<char>) -> Map<u64, TodoView> {
    if visible(r, id) {
        r.insert(id, TodoView { text, ..r[id] })
    } else {
        r
    }
}

/// The records after a soft delete of `id`: the flag is set if the record
/// exists, whatever it was, and nothing changes otherwise.
pub open spec fn with_deleted(r: Map<u64, TodoView>, id: u64) -> Map<u64, TodoView> {
    if r.contains_key(id) {
        r.insert(id, TodoView { deleted: true, ..r[id] })
    } else {
        r
    }
}

/// `k` lies past the cursor: any id when there is none, else a greater id.
pub open spec fn past(cursor: Option<u64>, k: u64) -> bool {
    match cursor {
        Some(c) => c < k,
        None => true,
    }
}

/// Each element is smaller than every later one.
pub open spec fn ascending(s: Seq<u64>) -> bool {
    forall|i: int, j: int| 0 <= i < j < s.len() ==> s[i] < s[j]
}

/// `ids` is the page of visible records past `cursor`, at most `limit` of
/// them: the smallest such ids, in ascending order.
pub open spec fn is_page(r: Map<u64, TodoView>, cursor: Option<u64>, limit: nat, ids: Seq<u64>) -> bool {
    &&& ids.len() <= limit
    &&& ascending(ids)
    &&& forall|i: int| 0 <= i < ids.len() ==> visible(r, #[trigger] ids[i]) && past(cursor, ids[i])
    &&& forall|k: u64|
        visible(r, k) && past(cursor, k) ==> #[trigger] ids.contains(k) || (ids.len() == limit && (
        limit == 0 || ids[ids.len() - 1] < k))
}

/// The ids of a sequence of records.
pub open spec fn ids_of(s: Seq<Todo>) -> Seq<u64> {
    s.map_values(|t: Todo| t.id)
}

/// Adds `k` to an ascending sequence of ids, in its place, unless it is
/// already there.
fn insert_sorted(v: &mut Vec<u64>, k: u64)
    requires
        ascending(old(v)@),
    ensures
        ascending(final(v)@),
        forall|x: u64| #[trigger] final(v)@.contains(x) <==> (old(v)@.contains(x) || x == k),
{
    let mut p: usize = 0;
    while p < v.len() && v[p] < k
        invariant
            p <= v.len(),
            forall|i: int| 0 <= i < p ==> v@[i] < k,
        decreases v.len() - p,
    {
        p = p + 1;
    }
    if p < v.len() && v[p] == k {
        return;
    }
    let ghost before = v@;
    v.insert(p, k);
    proof {
        assert forall|i: int, j: int| 0 <= i < j < final(v)@.len() implies final(v)@[i] < final(v)@[j] by {
            if j < p {
            } else if j == p {
            } else if i < p {
                assert(before[j - 1] >= before[p as int]);
            } else if i == p {
                assert(before[j - 1] >= before[p as int]);
            } else {
            }
        }
        assert forall|x: u64| #[trigger] final(v)@.contains(x) <==> (before.contains(x) || x == k) by {
            if final(v)@.contains(x) {
                let i = choose|i: int| 0 <= i < final(v)@.len() && final(v)@[i] == x;
                if i < p {
                    assert(before[i] == x);
                } else if i > p {
                    assert(before[i - 1] == x);
                }
            }
            if before.contains(x) {
                let i = choose|i: int| 0 <= i < before.len() && before[i] == x;
                if i < p {
                    assert(final(v)@[i] == x);
                } else {
                    assert(final(v)@[i + 1] == x);
                }
            }
            if x == k {
                assert(final(v)@[p as int] == x);
            }
        }
    }
}

/// Stores a new, not deleted record under `id`, replacing any record there.
pub fn insert_todo(map: &mut HashMap<u64, Todo>, id: u64, text: String)
    ensures
        records(final(map)@) == records(old(map)@).insert(id, TodoView { id, text: text@, deleted: false }),
{
    let ghost t = text@;
    map.insert(id, Todo::new(id, text));
    proof {
        assert(records(final(map)@) =~= records(old(map)@).insert(id, TodoView { id, text: t, deleted: false }));
    }
}

/// The record under `id`, if it exists and is not deleted.
pub fn get_visible_todo(map: &HashMap<u64, Todo>, id: u64) -> (r: Option<Todo>)
    ensures
        crate::todo::opt_view(r) == fetch(records(map@), id),
{
    match map.get(&id) {
        Some(t) => {
            if t.deleted {
                None
            } else {
                Some(t.copy())
            }
        },
        None => None,
    }
}

/// Replaces the text of the record under `id` if it exists and is not
/// deleted; reports whether it did.
pub fn update_todo_text(map: &mut HashMap<u64, Todo>, id: u64, new_text: String) -> (r: bool)
    ensures
        r == visible(records(old(map)@), id),
        records(final(map)@) == with_text(records(old(map)@), id, new_text@),
{
    let ghost t = new_text@;
    let found = match map.get(&id) {
        Some(todo) => if todo.deleted { None } else { Some(todo.id) },
        None => None,
    };
    match found {
        Some(tid) => {
            map.insert(id, Todo::new(tid, new_text));
            proof {
                assert(records(final(map)@) =~= with_text(records(old(map)@), id, t));
            }
            true
        },
        None => {
            proof {
                assert(records(final(map)@) =~= with_text(records(old(map)@), id, t));
            }
            false
        },
    }
}

/// Sets the deleted flag of the record under `id` if it exists, deleted or
/// not; reports whether it did.
pub fn mark_todo_deleted(map: &mut HashMap<u64, Todo>, id: u64) -> (r: bool)
    ensures
        r == records(old(map)@).contains_key(id),
        records(final(map)@) == with_deleted(records(old(map)@), id),
{
    match map.remove(&id) {
        Some(todo) => {
            map.insert(id, Todo { deleted: true, ..todo });
            proof {
                assert(records(final(map)@) =~= with_deleted(records(old(map)@), id));
            }
            true
        },
        None => {
            proof {
                assert(records(final(map)@) =~= with_deleted(records(old(map)@), id));
            }
            false
        },
    }
}

/// The page of visible records past `after_id`: at most `limit` of them,
/// the ones with the smallest ids, in ascending id order. A cursor need not
/// name a record: it is a strict lower bound on the ids returned.
pub fn list_visible_todos(map: &HashMap<u64, Todo>, after_id: Option<u64>, limit: usize) -> (r: Vec<Todo>)
    requires
        well_keyed(records(map@)),
    ensures
        is_page(records(map@), after_id, limit as nat, ids_of(r@)),
        forall|i: int| 0 <= i < r@.len() ==> (#[trigger] r@[i])@ == records(map@)[r@[i].id],
{
    let ghost rec = records(map@);
    let mut v: Vec<u64> = Vec::new();
    let keys = map.keys();
    let ghost all = keys.remaining();
    for k in it: keys
        invariant
            it.seq() == all,
            all.unref().to_set() == map@.dom(),
            rec == records(map@),
            ascending(v@),
            forall|i: int| 0 <= i < v@.len() ==> visible(rec, #[trigger] v@[i]) && past(after_id, v@[i]),
            forall|j: int|
                0 <= j < it.index() && visible(rec, *all[j]) && past(after_id, *all[j]) ==> v@.contains(
                    *#[trigger] all[j]),
    {
        let keep = match map.get(k) {
            Some(t) => !t.deleted && match after_id {
                Some(c) => c < *k,
                None => true,
            },
            None => false,
        };
        if keep {
            let ghost prev = v@;
            insert_sorted(&mut v, *k);
            proof {
                assert forall|i: int| 0 <= i < v@.len() implies visible(rec, #[trigger] v@[i]) && past(
                    after_id,
                    v@[i],
                ) by {
                    assert(v@.contains(v@[i]));
                    if v@[i] != *k {
                        let j = choose|j: int| 0 <= j < prev.len() && prev[j] == v@[i];
                    }
                }
            }
        }
    }
    proof {
        assert forall|k: u64| visible(rec, k) && past(after_id, k) implies v@.contains(k) by {
            assert(all.unref().to_set().contains(k));
            let j = choose|j: int| 0 <= j < all.unref().len() && all.unref()[j] == k;
            assert(*all[j] == k);
        }
    }
    let n: usize = if limit < v.len() { limit } else { v.len() };
    let mut out: Vec<Todo> = Vec::new();
    for i in 0..n
        invariant
            n <= v@.len(),
            rec == records(map@),
            well_keyed(rec),
            forall|x: int| 0 <= x < v@.len() ==> visible(rec, #[trigger] v@[x]),
            out@.len() == i,
            forall|x: int| 0 <= x < i ==> (#[trigger] out@[x])@ == rec[v@[x]] && out@[x].id == v@[x],
    {
        match map.get(&v[i]) {
            Some(t) => {
                out.push(t.copy());
            },
            None => {
                assert(visible(rec, v@[i as int]));
            },
        }
    }
    proof {
        assert(ids_of(out@) =~= v@.take(n as int));
        let ids = ids_of(out@);
        assert forall|k: u64| visible(rec, k) && past(after_id, k) implies #[trigger] ids.contains(k) || (
        ids.len() == limit && (limit == 0 || ids[ids.len() - 1] < k)) by {
            let j = choose|j: int| 0 <= j < v@.len() && v@[j] == k;
            if j < n {
                assert(ids[j] == k);
            }
        }
    }
    out
}

} // verus!
