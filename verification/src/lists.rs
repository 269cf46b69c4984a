use vstd::prelude::*;

verus! {

/// How much an item matters.
#[derive(Clone, Copy, Debug, PartialEq, Eq, Structural)]
pub enum TodoType {
    Important,
    Normal,
}

/// Whether an item is still to be done.
#[derive(Clone, Copy, Debug, PartialEq, Eq, Structural)]
pub enum TodoState {
    Todo,
    Done,
}

/// One item of a list.
#[derive(Debug, Clone, PartialEq, Eq)]
pub struct TodoItem {
    pub state: TodoState,
    pub name: String,
    pub todo_type: TodoType,
}

/// What a [`TodoItem`] stands for.
pub struct Task {
    pub state: TodoState,
    pub name: Seq<char>,
    pub todo_type: TodoType,
}

impl View for TodoItem {
    type V = Task;

    open spec fn view(&self) -> Task {
        Task { state: self.state, name: self.name@, todo_type: self.todo_type }
    }
}

impl TodoItem {
    /// A new item of the given name: still to do, and of no special type.
    pub fn new(name: &str) -> (item: Self)
        ensures
            item@ == (Task { state: TodoState::Todo, name: name@, todo_type: TodoType::Normal }),
    {
        TodoItem { state: TodoState::Todo, name: name.to_owned(), todo_type: TodoType::Normal }
    }

    /// Marks the item as important.
    pub fn important(&mut self)
        ensures
            final(self)@ == (Task { todo_type: TodoType::Important, ..old(self)@ }),
    {
        self.todo_type = TodoType::Important;
    }

    /// Marks the item as done.
    pub fn complete(&mut self)
        ensures
            final(self)@ == (Task { state: TodoState::Done, ..old(self)@ }),
    {
        self.state = TodoState::Done;
    }
}

/// A named list of items.
#[derive(Debug, Clone, PartialEq, Eq)]
pub struct TodoList {
    pub items: Vec<TodoItem>,
    pub name: String,
}

/// What a [`TodoList`] stands for.
pub struct Listing {
    pub items: Seq<Task>,
    pub name: Seq<char>,
}

/// The tasks that a sequence of items stands for, in order.
pub open spec fn tasks(items: Seq<TodoItem>) -> Seq<Task> {
    items.map_values(|it: TodoItem| it@)
}

/// Whether every task is done.
pub open spec fn all_done(s: Seq<Task>) -> bool {
    forall|i: int| 0 <= i < s.len() ==> (#[trigger] s[i]).state == TodoState::Done
}

impl View for TodoList {
    type V = Listing;

    open spec fn view(&self) -> Listing {
        Listing { items: tasks(self.items@), name: self.name@ }
    }
}

impl TodoList {
    /// An empty list of the given name.
    pub fn new(name: &str) -> (list: Self)
        ensures
            list@ == (Listing { items: Seq::empty(), name: name@ }),
    {
        let list = TodoList { items: Vec::new(), name: name.to_owned() };
        assert(tasks(list.items@) =~= Seq::empty());
        list
    }

    /// Whether every item of the list is done; an empty list is finished.
    pub fn is_finished(&self) -> (finished: bool)
        ensures
            finished == all_done(self@.items),
    {
        let mut i: usize = 0;
        while i < self.items.len()
            invariant
                i <= self.items.len(),
                forall|j: int| 0 <= j < i ==> (#[trigger] self@.items[j]).state == TodoState::Done,
            decreases self.items.len() - i,
        {
            if self.items[i].state != TodoState::Done {
                assert(self@.items[i as int].state != TodoState::Done);
                return false;
            }
            i += 1;
        }
        true
    }

    /// Appends a new item of the given name, still to do.
    pub fn add(&mut self, name: &str)
        ensures
            final(self)@.name == old(self)@.name,
            final(self)@.items == old(self)@.items.push(
                Task { state: TodoState::Todo, name: name@, todo_type: TodoType::Normal },
            ),
    {
        let item = TodoItem::new(name);
        assert(tasks(self.items@.push(item)) =~= tasks(self.items@).push(item@));
        self.items.push(item);
    }

    /// Removes the item at `index`; the items behind it move up by one.
    pub fn remove(&mut self, index: usize)
        requires
            index < old(self)@.items.len(),
        ensures
            final(self)@.name == old(self)@.name,
            final(self)@.items == old(self)@.items.remove(index as int),
    {
        self.items.remove(index);
        assert(tasks(self.items@) =~= tasks(old(self).items@).remove(index as int));
    }
}

/// The named lists of one user.
#[derive(Debug, Clone, PartialEq, Eq)]
pub struct TodoListList {
    pub todolists: Vec<TodoList>,
}

/// The listings that a sequence of lists stands for, in order.
pub open spec fn listings(lists: Seq<TodoList>) -> Seq<Listing> {
    lists.map_values(|l: TodoList| l@)
}

/// Whether every task of every listing is done.
pub open spec fn all_lists_done(s: Seq<Listing>) -> bool {
    forall|i: int| 0 <= i < s.len() ==> all_done((#[trigger] s[i]).items)
}

/// The lists that a user starts with: one empty list named `Todo`.
pub open spec fn initial_lists() -> Seq<Listing> {
    seq![(Listing { items: Seq::empty(), name: "Todo"@ })]
}

impl View for TodoListList {
    type V = Seq<Listing>;

    open spec fn view(&self) -> Seq<Listing> {
        listings(self.todolists@)
    }
}

impl TodoListList {
    /// The lists that a user starts with.
    pub fn new() -> (all: Self)
        ensures
            all@ == initial_lists(),
    {
        let mut todolistlist = TodoListList { todolists: Vec::new() };
        assert(todolistlist@ =~= Seq::empty());
        todolistlist.add("Todo");
        assert(todolistlist@ =~= initial_lists());
        todolistlist
    }

    /// The lists as they are after loading: those that were saved, or, where
    /// nothing was saved yet, the lists that a user starts with. The flag
    /// says whether these have to be saved first.
    pub fn load(saved: Option<Vec<TodoList>>) -> (out: (Self, bool))
        ensures
            match saved {
                Some(lists) => out.0@ == listings(lists@) && !out.1,
                None => out.0@ == initial_lists() && out.1,
            },
    {
        match saved {
            Some(todolists) => (TodoListList { todolists }, false),
            None => (TodoListList::new(), true),
        }
    }

    /// Whether every list is finished.
    pub fn all_finished(&self) -> (finished: bool)
        ensures
            finished == all_lists_done(self@),
    {
        let mut i: usize = 0;
        while i < self.todolists.len()
            invariant
                i <= self.todolists.len(),
                forall|j: int| 0 <= j < i ==> all_done((#[trigger] self@[j]).items),
            decreases self.todolists.len() - i,
        {
            if !self.todolists[i].is_finished() {
                assert(!all_done(self@[i as int].items));
                return false;
            }
            i += 1;
        }
        true
    }

    /// Appends a new, empty list of the given name.
    pub fn add(&mut self, name: &str)
        ensures
            final(self)@ == old(self)@.push(Listing { items: Seq::empty(), name: name@ }),
    {
        let list = TodoList::new(name);
        assert(listings(self.todolists@.push(list)) =~= listings(self.todolists@).push(list@));
        self.todolists.push(list);
    }
}

} // verus!
