use crate::item::{entries, Entry, TodoItem};
use crate::store::unique_ids;
use vstd::prelude::*;

verus! {

/// Whether the ids never fall from one entry to the next.
pub open spec fn sorted_by_id(s: Seq<Entry>) -> bool {
    forall|i: int, j: int| 0 <= i <= j < s.len() ==> (#[trigger] s[i]).id <= (#[trigger] s[j]).id
}

/// The entries whose id is `id`, in their order.
pub open spec fn with_id(s: Seq<Entry>, id: nat) -> Seq<Entry> {
    s.filter(|e: Entry| e.id == id)
}

/// Whether `after` holds the entries of `before` in the order of their ids,
/// entries of one id in the order that they had.
pub open spec fn arranged(before: Seq<Entry>, after: Seq<Entry>) -> bool {
    &&& after.to_multiset() == before.to_multiset()
    &&& sorted_by_id(after)
    &&& forall|id: nat| #[trigger] with_id(after, id) == with_id(before, id)
}

/// Putting the entries in order neither adds nor drops nor changes one.
pub proof fn lemma_arranged_same_entries(before: Seq<Entry>, after: Seq<Entry>)
    requires
        arranged(before, after),
    ensures
        after.len() == before.len(),
        forall|e: Entry| after.contains(e) <==> before.contains(e),
{
    before.to_multiset_ensures();
    after.to_multiset_ensures();
    assert forall|e: Entry| after.contains(e) <==> before.contains(e) by {
        assert(after.to_multiset().count(e) == before.to_multiset().count(e));
    }
}

/// The entries `t` with `e` put in behind the last entry whose id is not
/// above its own.
pub open spec fn insert_by_id(t: Seq<Entry>, e: Entry) -> Seq<Entry>
    decreases t.len(),
{
    if t.len() > 0 && t.last().id > e.id {
        insert_by_id(t.drop_last(), e).push(t.last())
    } else {
        t.push(e)
    }
}

/// The entries in the order of their ids, entries of one id in the order
/// that they had.
pub open spec fn sort_entries(s: Seq<Entry>) -> Seq<Entry>
    decreases s.len(),
{
    if s.len() == 0 {
        s
    } else {
        insert_by_id(sort_entries(s.drop_last()), s.last())
    }
}

/// Putting an entry in adds that entry and nothing else.
pub proof fn lemma_insert_same_entries(t: Seq<Entry>, e: Entry)
    ensures
        insert_by_id(t, e).to_multiset() == t.to_multiset().insert(e),
        insert_by_id(t, e).len() == t.len() + 1,
    decreases t.len(),
{
    broadcast use vstd::seq_lib::group_to_multiset_ensures;

    if t.len() > 0 && t.last().id > e.id {
        let init = t.drop_last();
        lemma_insert_same_entries(init, e);
        assert(init.push(t.last()) == t);
        assert(insert_by_id(t, e).to_multiset() =~= t.to_multiset().insert(e));
    }
}

/// Putting an entry into sorted entries leaves them sorted.
pub proof fn lemma_insert_sorted(t: Seq<Entry>, e: Entry)
    requires
        sorted_by_id(t),
    ensures
        sorted_by_id(insert_by_id(t, e)),
    decreases t.len(),
{
    broadcast use vstd::seq_lib::group_to_multiset_ensures;

    if t.len() > 0 && t.last().id > e.id {
        let init = t.drop_last();
        let last = t.last();
        let front = insert_by_id(init, e);
        assert forall|i: int, j: int| 0 <= i <= j < init.len() implies (#[trigger] init[i]).id
            <= (#[trigger] init[j]).id by {
            assert(init[i] == t[i] && init[j] == t[j]);
        }
        lemma_insert_sorted(init, e);
        lemma_insert_members(init, e);
        assert forall|i: int| 0 <= i < front.len() implies (#[trigger] front[i]).id <= last.id by {
            let x = front[i];
            if x != e {
                let k = choose|k: int| 0 <= k < init.len() && init[k] == x;
                assert(t[k] == x);
                assert(t[k].id <= t[t.len() - 1].id);
            }
        }
        let out = front.push(last);
        assert forall|i: int, j: int| 0 <= i <= j < out.len() implies (#[trigger] out[i]).id
            <= (#[trigger] out[j]).id by {
            if j < front.len() {
                assert(out[i] == front[i] && out[j] == front[j]);
            } else if i < front.len() {
                assert(out[i] == front[i]);
            }
        }
    } else {
        let out = t.push(e);
        assert forall|i: int, j: int| 0 <= i <= j < out.len() implies (#[trigger] out[i]).id
            <= (#[trigger] out[j]).id by {
            if j < t.len() {
                assert(out[i] == t[i] && out[j] == t[j]);
            } else if i < t.len() {
                assert(out[i] == t[i]);
                assert(t[i].id <= t[t.len() - 1].id);
            }
        }
    }
}

/// The entries of one id, after one more entry: that entry comes last among
/// them if the id is its own.
pub proof fn lemma_with_id_push(s: Seq<Entry>, e: Entry, id: nat)
    ensures
        with_id(s.push(e), id) == (if e.id == id {
            with_id(s, id).push(e)
        } else {
            with_id(s, id)
        }),
{
    reveal(Seq::filter);
    assert(s.push(e).drop_last() == s);
}

/// Putting an entry in leaves the entries of every id in their order, the
/// new entry last among those of its id.
pub proof fn lemma_insert_stable(t: Seq<Entry>, e: Entry, id: nat)
    ensures
        with_id(insert_by_id(t, e), id) == with_id(t.push(e), id),
    decreases t.len(),
{
    if t.len() > 0 && t.last().id > e.id {
        let init = t.drop_last();
        let last = t.last();
        lemma_insert_stable(init, e, id);
        assert(init.push(last) == t);
        lemma_with_id_push(insert_by_id(init, e), last, id);
        lemma_with_id_push(init, e, id);
        lemma_with_id_push(init, last, id);
        lemma_with_id_push(t, e, id);
    }
}

/// Sorting puts the entries in the order of their ids and neither adds nor
/// drops nor changes one; entries of one id keep their order.
pub proof fn lemma_sort_arranged(s: Seq<Entry>)
    ensures
        arranged(s, sort_entries(s)),
        sort_entries(s).len() == s.len(),
    decreases s.len(),
{
    broadcast use vstd::seq_lib::group_to_multiset_ensures;

    if s.len() > 0 {
        let init = s.drop_last();
        let last = s.last();
        let sorted = sort_entries(init);
        lemma_sort_arranged(init);
        lemma_insert_same_entries(sorted, last);
        lemma_insert_sorted(sorted, last);
        assert(init.push(last) == s);
        assert(sort_entries(s).to_multiset() =~= s.to_multiset());
        assert forall|id: nat| #[trigger] with_id(sort_entries(s), id) == with_id(s, id) by {
            lemma_insert_stable(sorted, last, id);
            lemma_with_id_push(sorted, last, id);
            lemma_with_id_push(init, last, id);
            assert(with_id(sorted, id) == with_id(init, id));
        }
    }
}

/// Every entry after putting `e` in is `e` or an entry of before.
pub proof fn lemma_insert_members(t: Seq<Entry>, e: Entry)
    ensures
        forall|i: int|
            0 <= i < insert_by_id(t, e).len() ==> (#[trigger] insert_by_id(t, e)[i]) == e
                || t.contains(insert_by_id(t, e)[i]),
{
    broadcast use vstd::seq_lib::group_to_multiset_ensures;

    let out = insert_by_id(t, e);
    lemma_insert_same_entries(t, e);
    assert forall|i: int| 0 <= i < out.len() implies (#[trigger] out[i]) == e || t.contains(
        out[i],
    ) by {
        let x = out[i];
        assert(out.contains(x));
        assert(out.to_multiset().count(x) > 0);
        if x != e {
            assert(t.to_multiset().count(x) > 0);
        }
    }
}

/// Sorting keeps the ids unique.
pub proof fn lemma_sort_keeps_unique_ids(s: Seq<Entry>)
    requires
        unique_ids(s),
    ensures
        unique_ids(sort_entries(s)),
{
    let t = sort_entries(s);
    lemma_sort_arranged(s);
    assert forall|i: int, j: int| 0 <= i < j < t.len() implies (#[trigger] t[i]).id
        != (#[trigger] t[j]).id by {
        if t[i].id == t[j].id {
            let id = t[i].id;
            lemma_two_of_one_id(t, id, i, j);
            lemma_at_most_one_of_an_id(s, id);
        }
    }
}

/// Two entries of one id are two of the entries of that id.
proof fn lemma_two_of_one_id(t: Seq<Entry>, id: nat, i: int, j: int)
    requires
        0 <= i < j < t.len(),
        t[i].id == id,
        t[j].id == id,
    ensures
        with_id(t, id).len() >= 2,
    decreases t.len(),
{
    let init = t.drop_last();
    lemma_with_id_push(init, t.last(), id);
    assert(init.push(t.last()) == t);
    if j == t.len() - 1 {
        lemma_one_of_an_id(init, id, i);
    } else {
        lemma_two_of_one_id(init, id, i, j);
    }
}

/// An entry of an id is one of the entries of that id.
proof fn lemma_one_of_an_id(t: Seq<Entry>, id: nat, i: int)
    requires
        0 <= i < t.len(),
        t[i].id == id,
    ensures
        with_id(t, id).len() >= 1,
    decreases t.len(),
{
    let init = t.drop_last();
    lemma_with_id_push(init, t.last(), id);
    assert(init.push(t.last()) == t);
    if i < t.len() - 1 {
        lemma_one_of_an_id(init, id, i);
    }
}

/// Where ids are unique, at most one entry has a given id.
proof fn lemma_at_most_one_of_an_id(s: Seq<Entry>, id: nat)
    requires
        unique_ids(s),
    ensures
        with_id(s, id).len() <= 1,
    decreases s.len(),
{
    reveal(Seq::filter);
    if s.len() > 0 {
        let init = s.drop_last();
        let n = s.len() - 1;
        lemma_with_id_push(init, s.last(), id);
        assert(init.push(s.last()) == s);
        assert forall|i: int, j: int| 0 <= i < j < init.len() implies (#[trigger] init[i]).id
            != (#[trigger] init[j]).id by {
            assert(init[i] == s[i] && init[j] == s[j]);
        }
        lemma_at_most_one_of_an_id(init, id);
        if s.last().id == id && with_id(init, id).len() > 0 {
            let x = with_id(init, id)[0];
            assert(with_id(init, id).contains(x));
            init.lemma_filter_contains_rev(|e: Entry| e.id == id, x);
            init.lemma_filter_pred(|e: Entry| e.id == id, 0);
            let k = choose|k: int| 0 <= k < init.len() && init[k] == x;
            assert(s[k].id != s[n].id);
        }
    }
}

/// Sorting leaves sorted entries as they are.
pub proof fn lemma_sort_sorted(s: Seq<Entry>)
    requires
        sorted_by_id(s),
    ensures
        sort_entries(s) == s,
    decreases s.len(),
{
    if s.len() > 0 {
        let init = s.drop_last();
        assert forall|i: int, j: int| 0 <= i <= j < init.len() implies (#[trigger] init[i]).id
            <= (#[trigger] init[j]).id by {
            assert(init[i] == s[i] && init[j] == s[j]);
        }
        lemma_sort_sorted(init);
        if init.len() > 0 {
            assert(init.last() == s[s.len() - 2]);
            assert(s[s.len() - 2].id <= s[s.len() - 1].id);
        }
        assert(init.push(s.last()) == s);
    }
}

/// Sorting a second time changes nothing.
pub proof fn lemma_sort_twice(s: Seq<Entry>)
    ensures
        sort_entries(sort_entries(s)) == sort_entries(s),
{
    lemma_sort_arranged(s);
    lemma_sort_sorted(sort_entries(s));
}

/// Where every entry of `t` from position `at` on has an id above that of
/// `e`, and the one before has not, `e` is put in at `at`.
proof fn lemma_insert_at(t: Seq<Entry>, e: Entry, at: int)
    requires
        0 <= at <= t.len(),
        forall|k: int| at <= k < t.len() ==> (#[trigger] t[k]).id > e.id,
        at > 0 ==> t[at - 1].id <= e.id,
    ensures
        insert_by_id(t, e) == t.insert(at, e),
    decreases t.len(),
{
    if at == t.len() {
        assert(t.push(e) =~= t.insert(at, e));
    } else {
        let init = t.drop_last();
        assert(t[t.len() - 1].id > e.id);
        assert forall|k: int| at <= k < init.len() implies (#[trigger] init[k]).id > e.id by {
            assert(init[k] == t[k]);
        }
        if at > 0 {
            assert(init[at - 1] == t[at - 1]);
        }
        lemma_insert_at(init, e, at);
        assert(init.insert(at, e).push(t.last()) =~= t.insert(at, e));
    }
}

/// Sorts the items by id; items of one id keep their order.
pub fn sort_by_id(items: &mut Vec<TodoItem>)
    ensures
        entries(final(items)@) == sort_entries(entries(old(items)@)),
{
    let ghost before = entries(items@);
    let mut i: usize = 0;
    assert(entries(items@.take(0)) =~= sort_entries(before.take(0)));
    while i < items.len()
        invariant
            i <= items.len(),
            items@.len() == before.len(),
            entries(items@.take(i as int)) == sort_entries(before.take(i as int)),
            entries(items@.skip(i as int)) == before.skip(i as int),
        decreases items.len() - i,
    {
        let id = items[i].id;
        let ghost start = items@;
        let ghost front = entries(start.take(i as int));
        let mut at: usize = i;
        while at > 0 && items[at - 1].id > id
            invariant
                at <= i < items.len(),
                items@ == start,
                id == start[i as int].id,
                forall|k: int| at <= k < i ==> (#[trigger] start[k]).id > id,
            decreases at,
        {
            at -= 1;
        }
        let item = items.remove(i);
        items.insert(at, item);
        proof {
            assert(entries(start.skip(i as int))[0] == item@);
            assert(before[i as int] == item@);
            assert forall|k: int| at <= k < front.len() implies (#[trigger] front[k]).id
                > item@.id by {
                assert(front[k] == start[k]@);
            }
            if at > 0 {
                assert(front[at - 1] == start[at - 1]@);
            }
            lemma_insert_at(front, item@, at as int);
            assert(entries(items@.take(i + 1)) =~= front.insert(at as int, item@));
            let grown = before.take(i + 1);
            assert(grown.drop_last() == before.take(i as int));
            assert(grown.last() == item@);
            assert(entries(items@.skip(i + 1)) =~= entries(start.skip(i as int)).skip(1));
            assert(before.skip(i + 1) =~= before.skip(i as int).skip(1));
        }
        i += 1;
    }
    assert(items@.take(items@.len() as int) == items@);
    assert(before.take(before.len() as int) == before);
}

} // verus!
