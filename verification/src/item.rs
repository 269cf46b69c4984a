use vstd::prelude::*;

verus! {

/// One task of the store: an id, a name, and whether it has been completed.
#[derive(Debug, Clone, PartialEq, Eq)]
pub struct TodoItem {
    pub id: u32,
    pub name: String,
    pub completed: bool,
}

/// What a [`TodoItem`] stands for.
pub struct Entry {
    pub id: nat,
    pub name: Seq<char>,
    pub completed: bool,
}

impl View for TodoItem {
    type V = Entry;

    open spec fn view(&self) -> Entry {
        Entry { id: self.id as nat, name: self.name@, completed: self.completed }
    }
}

impl TodoItem {
    /// Creates a TodoItem
    pub fn new(id: u32, name: String, completed: bool) -> (item: Self)
        ensures
            item@ == (Entry { id: id as nat, name: name@, completed }),
    {
        TodoItem { id, name, completed }
    }
}

/// The entries that a sequence of items stands for, in order.
pub open spec fn entries(items: Seq<TodoItem>) -> Seq<Entry> {
    items.map_values(|it: TodoItem| it@)
}

} // verus!
