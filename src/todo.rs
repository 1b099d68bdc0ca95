use vstd::prelude::*;

verus! {

/// One task: its id, its text, and whether it has been soft-deleted.
#[derive(Clone, Debug, PartialEq)]
pub struct Todo {
    pub id: u64,
    pub text: String,
    pub deleted: bool,
}

/// What a `Todo` holds, as mathematical values.
pub struct TodoView {
    pub id: u64,
    pub text: Seq<char>,
    pub deleted: bool,
}

impl View for Todo {
    type V = TodoView;

    open spec fn view(&self) -> TodoView {
        TodoView { id: self.id, text: self.text@, deleted: self.deleted }
    }
}

/// The view of an optional record.
pub open spec fn opt_view(t: Option<Todo>) -> Option<TodoView> {
    match t {
        Some(t) => Some(t@),
        None => None,
    }
}

impl Todo {
    /// A record that has not been deleted.
    pub fn new(id: u64, text: String) -> (r: Todo)
        ensures
            r@ == (TodoView { id, text: text@, deleted: false }),
    {
        Todo { id, text, deleted: false }
    }

    /// A copy of this record, field by field.
    pub fn copy(&self) -> (r: Todo)
        ensures
            r@ == self@,
    {
        Todo { id: self.id, text: self.text.clone(), deleted: self.deleted }
    }
}

} // verus!
