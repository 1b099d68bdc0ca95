use vstd::prelude::*;
use std::collections::HashMap;
use crate::todo::{Todo, TodoView, opt_view};
use crate::records::{
    records, well_keyed, fetch, with_text, with_deleted, is_page, ids_of, insert_todo,
    get_visible_todo, list_visible_todos, update_todo_text, mark_todo_deleted,
};

verus! {

/// The records of a store and its next id, as mathematical values.
pub struct StoreView {
    pub records: Map<u64, TodoView>,
    pub next_id: nat,
}

/// A store is valid when every record sits under its own id, every id lies
/// in `1..next_id`, and the counter still fits in a `u64`.
pub open spec fn valid(s: StoreView) -> bool {
    &&& well_keyed(s.records)
    &&& 1 <= s.next_id <= u64::MAX
    &&& forall|k: u64| #[trigger] s.records.contains_key(k) ==> 1 <= k < s.next_id
}

/// The empty store: no records, and the counter at 1.
pub open spec fn empty_store() -> StoreView {
    StoreView { records: Map::empty(), next_id: 1 }
}

/// The store after creating a record with `text`: the record takes the
/// counter's value as its id, and the counter advances by one.
pub open spec fn create(s: StoreView, text: Seq<char>) -> StoreView {
    StoreView {
        records: s.records.insert(s.next_id as u64, TodoView { id: s.next_id as u64, text, deleted: false }),
        next_id: s.next_id + 1,
    }
}

/// The records of a todo list and the counter that numbers new records.
pub struct TodoStore {
    todos: HashMap<u64, Todo>,
    next_id: u64,
}

impl View for TodoStore {
    type V = StoreView;

    closed spec fn view(&self) -> StoreView {
        StoreView { records: records(self.todos@), next_id: self.next_id as nat }
    }
}

impl TodoStore {
    /// An empty store whose first record will get id 1.
    pub fn new() -> (r: TodoStore)
        ensures
            r@ == empty_store(),
            valid(r@),
    {
        let r = TodoStore { todos: HashMap::new(), next_id: 1 };
        proof {
            assert(r@.records =~= Map::empty());
        }
        r
    }

    /// The id that the next created record will get.
    pub fn next_id(&self) -> (r: u64)
        ensures
            r as nat == self@.next_id,
    {
        self.next_id
    }

    /// Creates a record with `text` and returns its id, the counter's value.
    pub fn add_todo(&mut self, text: String) -> (r: u64)
        requires
            valid(old(self)@),
            old(self)@.next_id < u64::MAX,
        ensures
            r as nat == old(self)@.next_id,
            final(self)@ == create(old(self)@, text@),
            valid(final(self)@),
    {
        let id = self.next_id;
        self.next_id = id + 1;
        insert_todo(&mut self.todos, id, text);
        id
    }

    /// The record with `id`, if it exists and is not deleted.
    pub fn get_todo(&self, id: u64) -> (r: Option<Todo>)
        ensures
            opt_view(r) == fetch(self@.records, id),
    {
        get_visible_todo(&self.todos, id)
    }

    /// At most `limit` visible records with ids greater than `after_id`
    /// (any ids, when it is `None`), the smallest such ids first.
    pub fn list_todos(&self, after_id: Option<u64>, limit: usize) -> (r: Vec<Todo>)
        requires
            valid(self@),
        ensures
            is_page(self@.records, after_id, limit as nat, ids_of(r@)),
            forall|i: int| 0 <= i < r@.len() ==> (#[trigger] r@[i])@ == self@.records[r@[i].id],
    {
        list_visible_todos(&self.todos, after_id, limit)
    }

    /// Replaces the text of a visible record; reports whether there was one.
    pub fn update_todo(&mut self, id: u64, new_text: String) -> (r: bool)
        requires
            valid(old(self)@),
        ensures
            r == crate::records::visible(old(self)@.records, id),
            final(self)@ == (StoreView {
                records: with_text(old(self)@.records, id, new_text@),
                ..old(self)@
            }),
            valid(final(self)@),
    {
        update_todo_text(&mut self.todos, id, new_text)
    }

    /// Soft-deletes a record, deleted or not; reports whether it exists.
    pub fn delete_todo(&mut self, id: u64) -> (r: bool)
        requires
            valid(old(self)@),
        ensures
            r == old(self)@.records.contains_key(id),
            final(self)@ == (StoreView { records: with_deleted(old(self)@.records, id), ..old(self)@ }),
            valid(final(self)@),
    {
        mark_todo_deleted(&mut self.todos, id)
    }
}

} // verus!
