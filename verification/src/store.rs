use crate::item::{entries, Entry, TodoItem};
use crate::text::{chars_of, parse_u32, read_u32, trim, trimmed};
use vstd::prelude::*;

verus! {

/// The largest id among the entries, 0 where there is none.
pub open spec fn max_id(s: Seq<Entry>) -> nat
    decreases s.len(),
{
    if s.len() == 0 {
        0
    } else if s.last().id > max_id(s.drop_last()) {
        s.last().id
    } else {
        max_id(s.drop_last())
    }
}

/// The id that the next new entry gets: one more than the largest, and 1 in
/// an empty store.
pub open spec fn next_id(s: Seq<Entry>) -> nat {
    max_id(s) + 1
}

/// Whether some entry has the given id.
pub open spec fn has_id(s: Seq<Entry>, id: nat) -> bool {
    exists|i: int| 0 <= i < s.len() && (#[trigger] s[i]).id == id
}

/// Whether no two entries share an id.
pub open spec fn unique_ids(s: Seq<Entry>) -> bool {
    forall|i: int, j: int| 0 <= i < j < s.len() ==> (#[trigger] s[i]).id != (#[trigger] s[j]).id
}

/// The entries whose id is not `id`, in their order.
pub open spec fn without_id(s: Seq<Entry>, id: nat) -> Seq<Entry> {
    s.filter(|e: Entry| e.id != id)
}

/// The entry `e`, completed if its id is `id`.
pub open spec fn completed_if(e: Entry, id: nat) -> Entry {
    Entry { id: e.id, name: e.name, completed: e.completed || e.id == id }
}

/// The same entries, those with the given id completed.
pub open spec fn with_completed(s: Seq<Entry>, id: nat) -> Seq<Entry> {
    s.map_values(|e: Entry| completed_if(e, id))
}

/// The id that an argument of the command line names: a decimal number, white
/// space around it ignored.
pub open spec fn parse_id(arg: Seq<char>) -> Option<u32> {
    parse_u32(trim(arg))
}

/// No entry has an id above the largest.
pub proof fn lemma_max_id_bounds(s: Seq<Entry>)
    ensures
        forall|i: int| 0 <= i < s.len() ==> (#[trigger] s[i]).id <= max_id(s),
    decreases s.len(),
{
    if s.len() > 0 {
        lemma_max_id_bounds(s.drop_last());
        assert forall|i: int| 0 <= i < s.len() implies (#[trigger] s[i]).id <= max_id(s) by {
            if i < s.len() - 1 {
                assert(s.drop_last()[i] == s[i]);
            }
        }
    }
}

/// In a store that is not empty, the largest id is the id of some entry.
pub proof fn lemma_max_id_attained(s: Seq<Entry>)
    requires
        s.len() > 0,
    ensures
        has_id(s, max_id(s)),
    decreases s.len(),
{
    let init = s.drop_last();
    if init.len() == 0 || s.last().id > max_id(init) {
        assert(init.len() == 0 ==> max_id(init) == 0);
        assert(s[s.len() - 1].id == max_id(s));
    } else {
        lemma_max_id_attained(init);
        let i = choose|i: int| 0 <= i < init.len() && (#[trigger] init[i]).id == max_id(init);
        assert(s[i].id == max_id(s));
    }
}

/// A new entry under the next id keeps the ids unique.
pub proof fn lemma_push_keeps_unique_ids(s: Seq<Entry>, e: Entry)
    requires
        unique_ids(s),
        e.id == next_id(s),
    ensures
        unique_ids(s.push(e)),
{
    lemma_max_id_bounds(s);
}

/// Removing an id keeps the ids unique.
pub proof fn lemma_without_id_keeps_unique_ids(s: Seq<Entry>, id: nat)
    requires
        unique_ids(s),
    ensures
        unique_ids(without_id(s, id)),
    decreases s.len(),
{
    reveal(Seq::filter);
    if s.len() > 0 {
        let init = s.drop_last();
        let n = s.len() - 1;
        let pred = |e: Entry| e.id != id;
        assert forall|i: int, j: int| 0 <= i < j < init.len() implies (#[trigger] init[i]).id
            != (#[trigger] init[j]).id by {
            assert(init[i] == s[i] && init[j] == s[j]);
        }
        lemma_without_id_keeps_unique_ids(init, id);
        let kept = without_id(init, id);
        if s.last().id != id {
            assert(without_id(s, id) == kept.push(s.last()));
            assert forall|i: int| 0 <= i < kept.len() implies (#[trigger] kept[i]).id
                != s.last().id by {
                assert(kept.contains(kept[i]));
                init.lemma_filter_contains_rev(pred, kept[i]);
                let k = choose|k: int| 0 <= k < init.len() && init[k] == kept[i];
                assert(s[k] == init[k]);
                assert(s[k].id != s[n].id);
            }
        }
    }
}

/// Completing an id keeps the ids unique.
pub proof fn lemma_with_completed_keeps_unique_ids(s: Seq<Entry>, id: nat)
    requires
        unique_ids(s),
    ensures
        unique_ids(with_completed(s, id)),
{
    let after = with_completed(s, id);
    assert forall|i: int, j: int| 0 <= i < j < after.len() implies (#[trigger] after[i]).id
        != (#[trigger] after[j]).id by {
        assert(s[i].id != s[j].id);
    }
}

/// Reads the id that an argument names.
pub fn read_id(arg: &str) -> (id: Option<u32>)
    ensures
        id == parse_id(arg@),
{
    let chars = chars_of(arg);
    let inner = trimmed(&chars);
    read_u32(&inner)
}

/// The largest id in the store, 0 where it is empty.
pub fn highest_id(items: &Vec<TodoItem>) -> (m: u32)
    ensures
        m == max_id(entries(items@)),
{
    let mut m: u32 = 0;
    let mut i: usize = 0;
    assert(entries(items@).take(0).len() == 0);
    while i < items.len()
        invariant
            i <= items.len(),
            m == max_id(entries(items@).take(i as int)),
        decreases items.len() - i,
    {
        proof {
            let next = entries(items@).take(i + 1);
            assert(next.drop_last() == entries(items@).take(i as int));
            assert(next.last() == items@[i as int]@);
        }
        if items[i].id > m {
            m = items[i].id;
        }
        i += 1;
    }
    assert(entries(items@).take(items@.len() as int) == entries(items@));
    m
}

/// Appends a new, open item under the next free id and returns that id.
pub fn insert_named(items: &mut Vec<TodoItem>, name: String) -> (id: u32)
    requires
        next_id(entries(old(items)@)) <= u32::MAX,
    ensures
        id == next_id(entries(old(items)@)),
        old(items)@.len() == 0 ==> id == 1,
        entries(final(items)@) == entries(old(items)@).push(
            Entry { id: id as nat, name: name@, completed: false },
        ),
        unique_ids(entries(old(items)@)) ==> unique_ids(entries(final(items)@)),
{
    let id = highest_id(items) + 1;
    let item = TodoItem::new(id, name, false);
    proof {
        assert(entries(items@.push(item)) == entries(items@).push(item@));
        if unique_ids(entries(items@)) {
            lemma_push_keeps_unique_ids(entries(items@), item@);
        }
    }
    items.push(item);
    id
}

/// Removes every item with the given id; the others keep their order.
pub fn remove_id(items: &mut Vec<TodoItem>, id: u32)
    ensures
        entries(final(items)@) == without_id(entries(old(items)@), id as nat),
{
    let ghost before = items@;
    let ghost pred = |e: Entry| e.id != id as nat;
    let ghost mut j: int = 0;
    let mut i: usize = 0;
    proof {
        reveal(Seq::filter);
        assert(entries(before.take(0)).len() == 0);
        assert(entries(items@.take(0)) == entries(before.take(0)).filter(pred));
        assert(items@.skip(0) == before.skip(0));
    }
    while i < items.len()
        invariant
            0 <= j <= before.len(),
            i <= items.len(),
            items@.len() - i == before.len() - j,
            entries(items@.take(i as int)) == entries(before.take(j)).filter(pred),
            items@.skip(i as int) == before.skip(j),
            pred == |e: Entry| e.id != id as nat,
        decreases items.len() - i,
    {
        proof {
            reveal(Seq::filter);
            assert(items@[i as int] == items@.skip(i as int)[0]);
            assert(items@[i as int] == before[j]);
            let grown = entries(before.take(j + 1));
            assert(grown.drop_last() == entries(before.take(j)));
            assert(grown.last() == before[j]@);
        }
        let ghost kept = items@.take(i as int);
        let ghost tail = items@.skip(i as int);
        assert(tail.skip(1) =~= before.skip(j + 1));
        if items[i].id == id {
            items.remove(i);
            proof {
                assert(items@.take(i as int) == kept);
                assert(items@.skip(i as int) =~= tail.skip(1));
                j = j + 1;
            }
        } else {
            proof {
                assert(items@.take(i + 1) == kept.push(items@[i as int]));
                assert(entries(kept.push(items@[i as int])) == entries(kept).push(
                    items@[i as int]@,
                ));
                assert(items@.skip(i + 1) =~= tail.skip(1));
                j = j + 1;
            }
            i += 1;
        }
    }
    proof {
        assert(items@.take(i as int) == items@);
        assert(before.take(j) == before);
    }
}

/// Marks every item with the given id as completed and leaves the rest as
/// it is.
pub fn complete_id(items: &mut Vec<TodoItem>, id: u32)
    ensures
        entries(final(items)@) == with_completed(entries(old(items)@), id as nat),
        final(items)@.len() == old(items)@.len(),
        forall|i: int|
            0 <= i < old(items)@.len() ==> {
                &&& (#[trigger] final(items)@[i]).id == old(items)@[i].id
                &&& final(items)@[i].name@ == old(items)@[i].name@
                &&& final(items)@[i].completed == (old(items)@[i].completed || old(items)@[i].id
                    == id)
            },
{
    let ghost before = items@;
    let mut i: usize = 0;
    while i < items.len()
        invariant
            i <= items.len(),
            items@.len() == before.len(),
            forall|k: int| 0 <= k < i ==> (#[trigger] items@[k])@ == completed_if(before[k]@, id as nat),
            forall|k: int| i <= k < items@.len() ==> #[trigger] items@[k] == before[k],
        decreases items.len() - i,
    {
        if items[i].id == id {
            items[i].completed = true;
        }
        i += 1;
    }
    assert(entries(items@) =~= with_completed(entries(before), id as nat));
}

/// Removing an id that no entry has leaves the entries as they are.
pub proof fn lemma_remove_absent(s: Seq<Entry>, id: nat)
    requires
        !has_id(s, id),
    ensures
        without_id(s, id) == s,
    decreases s.len(),
{
    reveal(Seq::filter);
    if s.len() > 0 {
        let init = s.drop_last();
        assert(s.last() == s[s.len() - 1]);
        assert forall|i: int| 0 <= i < init.len() implies (#[trigger] init[i]).id != id by {
            assert(init[i] == s[i]);
        }
        lemma_remove_absent(init, id);
        assert(init.push(s.last()) == s);
    }
}

/// Where ids are unique, removing the id of the entry at position `k` takes
/// out that entry alone: one entry fewer, every other entry as it was.
pub proof fn lemma_remove_present(s: Seq<Entry>, id: nat, k: int)
    requires
        unique_ids(s),
        0 <= k < s.len(),
        s[k].id == id,
    ensures
        without_id(s, id) == s.remove(k),
        without_id(s, id).len() == s.len() - 1,
    decreases s.len(),
{
    reveal(Seq::filter);
    let init = s.drop_last();
    let n = s.len() - 1;
    assert forall|i: int, j: int| 0 <= i < j < init.len() implies (#[trigger] init[i]).id
        != (#[trigger] init[j]).id by {
        assert(init[i] == s[i] && init[j] == s[j]);
    }
    if k == n {
        assert forall|i: int| 0 <= i < init.len() implies (#[trigger] init[i]).id != id by {
            assert(init[i] == s[i]);
            assert(s[i].id != s[n].id);
        }
        lemma_remove_absent(init, id);
        assert(s.remove(k) == init);
    } else {
        assert(s[k].id != s[n].id);
        assert(init[k] == s[k]);
        lemma_remove_present(init, id, k);
        assert(init.remove(k).push(s.last()) == s.remove(k));
    }
}

/// Adds a new, open item whose name is the argument after the verb.
pub fn add_item(todo_items: &mut Vec<TodoItem>, args: &[String])
    requires
        args@.len() > 2,
        next_id(entries(old(todo_items)@)) <= u32::MAX,
    ensures
        entries(final(todo_items)@) == entries(old(todo_items)@).push(
            Entry {
                id: next_id(entries(old(todo_items)@)),
                name: args@[2]@,
                completed: false,
            },
        ),
        old(todo_items)@.len() == 0 ==> entries(final(todo_items)@)[0].id == 1,
        unique_ids(entries(old(todo_items)@)) ==> unique_ids(entries(final(todo_items)@)),
{
    insert_named(todo_items, args[2].clone());
}

/// Removes the items whose id the argument after the verb names.
pub fn remove_item(todo_items: &mut Vec<TodoItem>, args: &[String])
    requires
        args@.len() > 2,
        parse_id(args@[2]@) is Some,
    ensures
        entries(final(todo_items)@) == without_id(
            entries(old(todo_items)@),
            parse_id(args@[2]@).unwrap() as nat,
        ),
{
    match read_id(args[2].as_str()) {
        Some(id) => remove_id(todo_items, id),
        None => {},
    }
}

/// Completes the items whose id the argument after the verb names.
pub fn complete_item(todo_items: &mut Vec<TodoItem>, args: &[String])
    requires
        args@.len() > 2,
        parse_id(args@[2]@) is Some,
    ensures
        entries(final(todo_items)@) == with_completed(
            entries(old(todo_items)@),
            parse_id(args@[2]@).unwrap() as nat,
        ),
{
    match read_id(args[2].as_str()) {
        Some(id) => complete_id(todo_items, id),
        None => {},
    }
}

} // verus!
