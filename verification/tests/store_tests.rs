use todo_swamp::Description;
use todo_swamp::Index;
use todo_swamp::SearchParams;
use todo_swamp::SearchWord;
use todo_swamp::Tag;
use todo_swamp::TodoList;

fn params(words: &[&str], tags: &[&str]) -> SearchParams {
    SearchParams {
        words: words.iter().map(|w| SearchWord::new(w)).collect(),
        tags: tags.iter().map(|t| Tag::new(t)).collect(),
    }
}

#[test]
fn indices_are_dense_and_increasing() {
    let mut tl = TodoList::new(4);
    let a = tl.push(Description::new("one"), vec![]);
    let b = tl.push(Description::new("two"), vec![]);
    let c = tl.push(Description::new("three"), vec![]);
    assert_eq!(a.index.value(), 0);
    assert_eq!(b.index.value(), 1);
    assert_eq!(c.index.value(), 2);
}

#[test]
fn done_succeeds_once_then_fails() {
    let mut tl = TodoList::new(2);
    tl.push(Description::new("one"), vec![]);
    assert_eq!(tl.done_with_index(Index::new(0)), Some(Index::new(0)));
    assert_eq!(tl.done_with_index(Index::new(0)), None);
}

#[test]
fn done_fails_on_unknown_index() {
    let mut tl = TodoList::new(2);
    tl.push(Description::new("one"), vec![]);
    assert_eq!(tl.done_with_index(Index::new(5)), None);
}

#[test]
fn done_item_never_matches_again() {
    let mut tl = TodoList::new(2);
    tl.push(Description::new("buy milk"), vec![Tag::new("shopping")]);
    tl.push(Description::new("walk dog"), vec![Tag::new("pet")]);
    tl.done_with_index(Index::new(0));
    let all = tl.search(params(&[], &[]));
    assert_eq!(all.len(), 1);
    assert_eq!(all[0].index.value(), 1);
    let by_tag = tl.search(params(&[], &["shopping"]));
    assert!(by_tag.is_empty());
    let by_word = tl.search(params(&["milk"], &[]));
    assert!(by_word.is_empty());
}

#[test]
fn empty_filter_returns_all_active_newest_first() {
    let mut tl = TodoList::new(3);
    tl.push(Description::new("one"), vec![]);
    tl.push(Description::new("two"), vec![]);
    tl.push(Description::new("three"), vec![]);
    let all = tl.search(params(&[], &[]));
    let got: Vec<u64> = all.iter().map(|it| it.index.value()).collect();
    assert_eq!(got, vec![2, 1, 0]);
}

#[test]
fn word_matches_as_subsequence_of_one_token() {
    let mut tl = TodoList::new(2);
    tl.push(Description::new("total-call today"), vec![]);
    tl.push(Description::new("cat"), vec![]);
    let hits = tl.search(params(&["tc"], &[]));
    assert_eq!(hits.len(), 1);
    assert_eq!(hits[0].index.value(), 0);
}

#[test]
fn subsequence_may_not_span_two_tokens() {
    let mut tl = TodoList::new(1);
    tl.push(Description::new("ta co"), vec![]);
    // 't' is in the first token and 'c' in the second; no single token
    // holds "tc" as a subsequence.
    assert!(tl.search(params(&["tc"], &[])).is_empty());
}

#[test]
fn and_semantics_across_words() {
    let mut tl = TodoList::new(3);
    tl.push(Description::new("alpha beta"), vec![]);
    tl.push(Description::new("alpha only"), vec![]);
    tl.push(Description::new("beta only"), vec![]);
    let hits = tl.search(params(&["alpha", "beta"], &[]));
    assert_eq!(hits.len(), 1);
    assert_eq!(hits[0].index.value(), 0);
}

#[test]
fn words_and_tags_must_both_hold() {
    let mut tl = TodoList::new(2);
    tl.push(Description::new("buy milk"), vec![Tag::new("shopping")]);
    tl.push(Description::new("buy stamps"), vec![Tag::new("errand")]);
    let hits = tl.search(params(&["buy"], &["shop"]));
    assert_eq!(hits.len(), 1);
    assert_eq!(hits[0].index.value(), 0);
}

#[test]
fn tag_matches_as_subsequence() {
    let mut tl = TodoList::new(1);
    tl.push(Description::new("x"), vec![Tag::new("long-term")]);
    let hits = tl.search(params(&[], &["lt"]));
    assert_eq!(hits.len(), 1);
    assert!(tl.search(params(&[], &["tl"])).is_empty());
}

#[test]
fn tags_from_strings_keeps_order() {
    let ts = Tag::from_strings(vec!["a", "b", "c"]);
    assert_eq!(ts.len(), 3);
    assert_eq!(ts[0].value(), "a");
    assert_eq!(ts[1].value(), "b");
    assert_eq!(ts[2].value(), "c");
}

#[test]
fn index_accessors() {
    let mut i = Index::new(3);
    assert_eq!(i.value(), 3);
    i.increement();
    assert_eq!(i.value(), 4);
}

#[test]
fn search_word_accessors() {
    let w = SearchWord::new("milk");
    assert_eq!(w.value(), "milk");
}
