//! The laws of the store and the search engine, stated and proved once.

use vstd::prelude::*;

use crate::todo_list::complete_ok;
use crate::todo_list::item_matches;
use crate::todo_list::mark_done;
use crate::todo_list::search_spec;
use crate::todo_list::tag_in_tags;
use crate::todo_list::word_in_desc;
use crate::todo_list::TodoItemV;
use crate::todo_list::TodoList;

verus! {

/// Every item a search returns is a stored item that satisfies the whole
/// conjunction of the search terms: it is active, every search word
/// matches a token of its description, and every search tag matches one
/// of its tags. No term is exempt: matching is an AND across both lists.
pub proof fn lemma_search_members(
    items: Seq<TodoItemV>,
    words: Seq<Seq<char>>,
    tags: Seq<Seq<char>>,
    p: int,
)
    requires
        0 <= p < search_spec(items, words, tags).len(),
    ensures
        items.contains(search_spec(items, words, tags)[p]),
        !search_spec(items, words, tags)[p].done,
        forall|k: int| 0 <= k < words.len() ==> word_in_desc(
            words[k],
            search_spec(items, words, tags)[p].description,
        ),
        forall|k: int| 0 <= k < tags.len() ==> tag_in_tags(
            tags[k],
            search_spec(items, words, tags)[p].tags,
        ),
    decreases items.len(),
{
    let full = search_spec(items, words, tags);
    let rest = search_spec(items.drop_last(), words, tags);
    if item_matches(items.last(), words, tags) && p == 0 {
        assert(full[0] == items.last());
        assert(items[items.len() - 1] == items.last());
        assert(items.contains(full[0]));
    } else {
        let q = if item_matches(items.last(), words, tags) {
            p - 1
        } else {
            p
        };
        assert(full[p] == rest[q]);
        lemma_search_members(items.drop_last(), words, tags, q);
        let w = choose|w: int|
            0 <= w < items.drop_last().len() && items.drop_last()[w] == rest[q];
        assert(items[w] == full[p]);
        assert(items.contains(full[p]));
    }
}

/// Every stored item that satisfies all the search terms is returned:
/// the search answer misses nothing.
pub proof fn lemma_search_complete(
    items: Seq<TodoItemV>,
    words: Seq<Seq<char>>,
    tags: Seq<Seq<char>>,
    x: TodoItemV,
)
    requires
        items.contains(x),
        item_matches(x, words, tags),
    ensures
        search_spec(items, words, tags).contains(x),
    decreases items.len(),
{
    let full = search_spec(items, words, tags);
    let rest = search_spec(items.drop_last(), words, tags);
    let i = choose|i: int| 0 <= i < items.len() && items[i] == x;
    if i == items.len() - 1 {
        assert(items.last() == x);
        assert(full[0] == x);
        assert(full.contains(x));
    } else {
        assert(items.drop_last()[i] == x);
        assert(items.drop_last().contains(x));
        lemma_search_complete(items.drop_last(), words, tags, x);
        let q = choose|q: int| 0 <= q < rest.len() && rest[q] == x;
        if item_matches(items.last(), words, tags) {
            assert(full[q + 1] == x);
        } else {
            assert(full[q] == x);
        }
        assert(full.contains(x));
    }
}

/// In a store whose items carry their position as their index, a search
/// answers newest first: the returned indices are strictly decreasing, so
/// no item is returned twice.
pub proof fn lemma_search_newest_first(
    items: Seq<TodoItemV>,
    words: Seq<Seq<char>>,
    tags: Seq<Seq<char>>,
)
    requires
        forall|i: int| 0 <= i < items.len() ==> #[trigger] items[i].index == i,
    ensures
        forall|p: int| 0 <= p < search_spec(items, words, tags).len()
            ==> #[trigger] search_spec(items, words, tags)[p].index < items.len(),
        forall|p: int, q: int|
            0 <= p < q < search_spec(items, words, tags).len() ==> search_spec(
                items,
                words,
                tags,
            )[p].index > search_spec(items, words, tags)[q].index,
    decreases items.len(),
{
    if items.len() > 0 {
        lemma_search_newest_first(items.drop_last(), words, tags);
        let full = search_spec(items, words, tags);
        let rest = search_spec(items.drop_last(), words, tags);
        if item_matches(items.last(), words, tags) {
            assert(full == seq![items.last()] + rest);
            assert(items.last().index == items.len() - 1);
            assert(forall|p: int| 0 <= p < rest.len() ==> #[trigger] rest[p].index < items.len()
                - 1);
            assert forall|p: int, q: int| 0 <= p < q < full.len() implies full[p].index
                > full[q].index by {
                if p == 0 {
                    assert(full[q] == rest[q - 1]);
                } else {
                    assert(full[p] == rest[p - 1]);
                    assert(full[q] == rest[q - 1]);
                }
            }
        }
    }
}

/// Identity is monotone: in a well-formed store the item at each position
/// carries that position as its index, so indices run 0, 1, 2, ... with no
/// gap, no repeat, and strictly increasing in insertion order.
pub proof fn lemma_identity_monotonic(tl: &TodoList)
    requires
        tl.wf(),
    ensures
        forall|i: int| 0 <= i < tl@.len() ==> #[trigger] tl@[i].index == i,
        forall|i: int, j: int| 0 <= i < j < tl@.len() ==> tl@[i].index < tl@[j].index,
{
    tl.lemma_wf_indices();
}

/// Done is terminal, first part: once an item is done, no search — with
/// any words, any tags, or none — ever returns an item with its index.
pub proof fn lemma_done_is_terminal(
    items: Seq<TodoItemV>,
    i: int,
    words: Seq<Seq<char>>,
    tags: Seq<Seq<char>>,
)
    requires
        forall|k: int| 0 <= k < items.len() ==> #[trigger] items[k].index == k,
        0 <= i < items.len(),
        items[i].done,
    ensures
        forall|p: int| 0 <= p < search_spec(items, words, tags).len()
            ==> #[trigger] search_spec(items, words, tags)[p].index != i,
{
    let full = search_spec(items, words, tags);
    assert forall|p: int| 0 <= p < full.len() implies #[trigger] full[p].index != i by {
        lemma_search_members(items, words, tags, p);
        let q = choose|q: int| 0 <= q < items.len() && items[q] == full[p];
        assert(full[p].index == q);
        if full[p].index == i {
            assert(items[i] == full[p]);
        }
    }
}

/// Done is terminal, second part: completing an item succeeds at most
/// once; after a successful completion, a second completion of the same
/// index fails.
pub proof fn lemma_complete_twice(items: Seq<TodoItemV>, i: int)
    requires
        complete_ok(items, i),
    ensures
        !complete_ok(mark_done(items, i), i),
{
}

/// Done is terminal, third part: no store operation reactivates an item.
/// Appending a fresh item and completing any item both keep every done
/// flag set, so a done item stays done in every later state.
pub proof fn lemma_done_preserved(items: Seq<TodoItemV>, i: int, x: TodoItemV, j: int)
    requires
        0 <= i < items.len(),
        items[i].done,
    ensures
        items.push(x)[i].done,
        complete_ok(items, j) ==> mark_done(items, j)[i].done,
{
}

/// The empty filter is complete: a search with no words and no tags
/// returns exactly the currently active items — every active item, no
/// done item, and (by `lemma_search_newest_first`) each exactly once.
pub proof fn lemma_empty_filter_completeness(items: Seq<TodoItemV>, x: TodoItemV)
    ensures
        search_spec(items, Seq::<Seq<char>>::empty(), Seq::<Seq<char>>::empty()).contains(x)
            <==> (items.contains(x) && !x.done),
{
    let none = Seq::<Seq<char>>::empty();
    let full = search_spec(items, none, none);
    if full.contains(x) {
        let p = choose|p: int| 0 <= p < full.len() && full[p] == x;
        lemma_search_members(items, none, none, p);
    }
    if items.contains(x) && !x.done {
        assert(item_matches(x, none, none));
        lemma_search_complete(items, none, none, x);
    }
}

} // verus!
