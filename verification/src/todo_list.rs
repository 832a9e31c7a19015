//! The domain model and the store: todo items, their identity, and search.
//!
//! A [`TodoList`] owns an ordered collection of [`TodoItem`]s and a counter
//! that assigns each new item the next index, starting at zero. Items are
//! appended by [`TodoList::push`], marked done in place by
//! [`TodoList::done_with_index`], and queried by [`TodoList::search`], which
//! matches search terms as character subsequences of single tokens and
//! returns the matching active items newest first.

use vstd::prelude::*;

verus! {

/// A space or a horizontal tab: the only separators the grammar allows.
pub open spec fn is_ws_char(c: char) -> bool {
    c == ' ' || c == '\t'
}

/// An ASCII lowercase letter or a dash: the characters of words and tags.
pub open spec fn spec_lower_or_dash(c: char) -> bool {
    ('a' <= c && c <= 'z') || c == '-'
}

/// `n` occurs inside `h` in order, though not necessarily contiguously.
pub open spec fn is_subseq(n: Seq<char>, h: Seq<char>) -> bool
    decreases n.len() + h.len(),
{
    if n.len() == 0 {
        true
    } else if h.len() == 0 {
        false
    } else {
        (n[0] == h[0] && is_subseq(n.skip(1), h.skip(1))) || is_subseq(n, h.skip(1))
    }
}

/// First position at or after `i` whose character is not a space or tab.
pub open spec fn skip_ws(s: Seq<char>, i: int) -> int
    decreases s.len() - i,
{
    if i < s.len() && 0 <= i && is_ws_char(s[i]) {
        skip_ws(s, i + 1)
    } else {
        i
    }
}

/// First position at or after `i` whose character is a space or tab.
pub open spec fn non_ws_end(s: Seq<char>, i: int) -> int
    decreases s.len() - i,
{
    if i < s.len() && 0 <= i && !is_ws_char(s[i]) {
        non_ws_end(s, i + 1)
    } else {
        i
    }
}

pub broadcast proof fn lemma_skip_ws(s: Seq<char>, i: int)
    requires
        0 <= i <= s.len(),
    ensures
        i <= #[trigger] skip_ws(s, i) <= s.len(),
        forall|k: int| i <= k < skip_ws(s, i) ==> is_ws_char(s[k]),
        skip_ws(s, i) < s.len() ==> !is_ws_char(s[skip_ws(s, i)]),
    decreases s.len() - i,
{
    if i < s.len() && is_ws_char(s[i]) {
        lemma_skip_ws(s, i + 1);
    }
}

pub broadcast proof fn lemma_non_ws_end(s: Seq<char>, i: int)
    requires
        0 <= i <= s.len(),
    ensures
        i <= #[trigger] non_ws_end(s, i) <= s.len(),
        forall|k: int| i <= k < non_ws_end(s, i) ==> !is_ws_char(s[k]),
        non_ws_end(s, i) < s.len() ==> is_ws_char(s[non_ws_end(s, i)]),
    decreases s.len() - i,
{
    if i < s.len() && !is_ws_char(s[i]) {
        lemma_non_ws_end(s, i + 1);
    }
}

/// The whitespace-delimited tokens of `s`, scanning from position `i`.
pub open spec fn tokens_from(s: Seq<char>, i: int) -> Seq<Seq<char>>
    decreases s.len() - i,
{
    let j = skip_ws(s, i);
    if j < i || j > s.len() {
        Seq::empty()
    } else if j == s.len() {
        Seq::empty()
    } else {
        let k = non_ws_end(s, j);
        if j < k <= s.len() {
            seq![s.subrange(j, k)] + tokens_from(s, k)
        } else {
            Seq::empty()
        }
    }
}

/// The maximal whitespace-free tokens of `s`, in order.
pub open spec fn tokens(s: Seq<char>) -> Seq<Seq<char>> {
    tokens_from(s, 0)
}

/// Word `w` matches description `d`: some single token of `d` contains `w`
/// as an in-order character subsequence.
pub open spec fn word_in_desc(w: Seq<char>, d: Seq<char>) -> bool {
    exists|k: int| 0 <= k < tokens(d).len() && is_subseq(w, tokens(d)[k])
}

/// Search tag `t` matches the tag list `ts`: some single tag of `ts`
/// contains `t` as an in-order character subsequence.
pub open spec fn tag_in_tags(t: Seq<char>, ts: Seq<Seq<char>>) -> bool {
    exists|k: int| 0 <= k < ts.len() && is_subseq(t, ts[k])
}

/// Dropping the first character of the needle preserves subsequence-hood.
proof fn lemma_subseq_drop_needle(n: Seq<char>, h: Seq<char>)
    requires
        is_subseq(n, h),
        n.len() > 0,
    ensures
        is_subseq(n.skip(1), h),
    decreases h.len(),
{
    if h.len() > 0 {
        if n[0] == h[0] && is_subseq(n.skip(1), h.skip(1)) {
            if n.skip(1).len() > 0 {
                assert(is_subseq(n.skip(1), h));
            }
        } else {
            lemma_subseq_drop_needle(n, h.skip(1));
        }
    }
}

/// Taking an available match of the first characters never hurts: the
/// greedy step is complete.
proof fn lemma_subseq_greedy(n: Seq<char>, h: Seq<char>)
    requires
        is_subseq(n, h),
        n.len() > 0,
        h.len() > 0,
        n[0] == h[0],
    ensures
        is_subseq(n.skip(1), h.skip(1)),
{
    if !is_subseq(n.skip(1), h.skip(1)) {
        assert(is_subseq(n, h.skip(1)));
        lemma_subseq_drop_needle(n, h.skip(1));
    }
}

/// Decides subsequence containment by one greedy left-to-right scan.
pub fn subseq_match(n: &str, h: &str) -> (r: bool)
    ensures
        r == is_subseq(n@, h@),
{
    let nlen = n.unicode_len();
    let hlen = h.unicode_len();
    let mut i: usize = 0;
    let mut j: usize = 0;
    proof {
        assert(n@.skip(0) =~= n@);
        assert(h@.skip(0) =~= h@);
    }
    while i < hlen
        invariant
            j <= nlen == n@.len(),
            i <= hlen == h@.len(),
            is_subseq(n@, h@) == is_subseq(n@.skip(j as int), h@.skip(i as int)),
        decreases hlen - i,
    {
        if j == nlen {
            proof {
                assert(n@.skip(j as int).len() == 0);
            }
            return true;
        }
        let nc = n.get_char(j);
        let hc = h.get_char(i);
        proof {
            let ns = n@.skip(j as int);
            let hs = h@.skip(i as int);
            assert(ns[0] == nc);
            assert(hs[0] == hc);
            if nc == hc {
                if is_subseq(ns, hs) {
                    lemma_subseq_greedy(ns, hs);
                } else {
                    if is_subseq(ns.skip(1), hs.skip(1)) {
                        assert(is_subseq(ns, hs));
                    }
                }
                assert(ns.skip(1) =~= n@.skip(j + 1));
                assert(hs.skip(1) =~= h@.skip(i + 1));
            } else {
                assert(is_subseq(ns, hs) == is_subseq(ns, hs.skip(1)));
                assert(hs.skip(1) =~= h@.skip(i + 1));
            }
        }
        if nc == hc {
            j = j + 1;
        }
        i = i + 1;
    }
    proof {
        assert(h@.skip(i as int).len() == 0);
        if j < nlen {
            assert(n@.skip(j as int).len() > 0);
        } else {
            assert(n@.skip(j as int).len() == 0);
        }
    }
    j == nlen
}

/// Does any single whitespace-delimited token of `sentence` contain `word`
/// as a character subsequence? A completed item matches nothing, and a
/// satisfied term bumps the caller's count of satisfied terms.
pub fn find_words(sentence: &str, word: &str, counter: &mut usize, is_done: bool) -> (r: bool)
    requires
        *old(counter) < usize::MAX,
    ensures
        r == (!is_done && word_in_desc(word@, sentence@)),
        *final(counter) == if r {
            *old(counter) + 1
        } else {
            *old(counter) as int
        },
{
    if is_done {
        return false;
    }
    let ghost s = sentence@;
    let ghost toks = tokens(s);
    let len = sentence.unicode_len();
    let mut i: usize = 0;
    let ghost mut n: int = 0;
    loop
        invariant
            i <= len,
            len == s.len(),
            s == sentence@,
            toks == tokens(s),
            0 <= n <= toks.len(),
            tokens_from(s, i as int) == toks.skip(n),
            forall|k: int| 0 <= k < n ==> !is_subseq(word@, toks[k]),
            !is_done,
            *counter == *old(counter),
            *old(counter) < usize::MAX,
        decreases len - i,
    {
        if i == len {
            proof {
                assert(tokens_from(s, i as int) =~= Seq::<Seq<char>>::empty());
                assert(toks.skip(n).len() == 0);
                assert(n == toks.len());
            }
            return false;
        }
        let c = sentence.get_char(i);
        if c == ' ' || c == '\t' {
            proof {
                lemma_skip_ws(s, i + 1);
                assert(skip_ws(s, i as int) == skip_ws(s, i + 1));
                assert(tokens_from(s, i as int) == tokens_from(s, i + 1));
            }
            i = i + 1;
        } else {
            let start = i;
            proof {
                lemma_non_ws_end(s, i + 1);
                assert(skip_ws(s, start as int) == start);
                assert(non_ws_end(s, start as int) == non_ws_end(s, i + 1));
            }
            i = i + 1;
            loop
                invariant
                    start < i <= len,
                    len == s.len(),
                    s == sentence@,
                    non_ws_end(s, start as int) == non_ws_end(s, i as int),
                ensures
                    start < i <= len,
                    non_ws_end(s, start as int) == i,
                decreases len - i,
            {
                if i == len {
                    proof {
                        assert(non_ws_end(s, i as int) == i);
                    }
                    break;
                }
                let c2 = sentence.get_char(i);
                if c2 == ' ' || c2 == '\t' {
                    proof {
                        assert(is_ws_char(s[i as int]));
                        assert(non_ws_end(s, i as int) == i);
                    }
                    break;
                }
                proof {
                    lemma_non_ws_end(s, i + 1);
                    assert(non_ws_end(s, i as int) == non_ws_end(s, i + 1));
                }
                i = i + 1;
            }
            proof {
                assert(non_ws_end(s, start as int) == i);
                assert(tokens_from(s, start as int) == seq![s.subrange(start as int, i as int)]
                    + tokens_from(s, i as int));
                assert(toks.skip(n).len() == toks.len() - n);
                assert(0 <= n < toks.len());
                assert(toks.skip(n)[0] == toks[n]);
                assert(toks[n] == s.subrange(start as int, i as int));
            }
            let token = sentence.substring_char(start, i);
            if subseq_match(word, token) {
                proof {
                    assert(is_subseq(word@, toks[n]));
                    assert(word_in_desc(word@, sentence@));
                }
                *counter = *counter + 1;
                return true;
            }
            proof {
                assert(tokens_from(s, i as int) =~= toks.skip(n).skip(1));
                assert(toks.skip(n).skip(1) =~= toks.skip(n + 1));
                n = n + 1;
            }
        }
    }
}

/// Does any single tag of `tags` contain `sh_tag` as a character
/// subsequence? A completed item matches nothing, and a satisfied term
/// bumps the caller's count of satisfied terms.
pub fn find_tags(tags: &Vec<Tag>, sh_tag: &Tag, counter: &mut usize, is_done: bool) -> (r: bool)
    requires
        *old(counter) < usize::MAX,
    ensures
        r == (!is_done && tag_in_tags(sh_tag@, tags.deep_view())),
        *final(counter) == if r {
            *old(counter) + 1
        } else {
            *old(counter) as int
        },
{
    if is_done {
        return false;
    }
    let mut i: usize = 0;
    while i < tags.len()
        invariant
            i <= tags.len(),
            forall|k: int| 0 <= k < i ==> !is_subseq(sh_tag@, tags.deep_view()[k]),
            !is_done,
            *counter == *old(counter),
            *old(counter) < usize::MAX,
        decreases tags.len() - i,
    {
        if subseq_match(sh_tag.value(), tags[i].value()) {
            proof {
                assert(tags.deep_view().len() == tags@.len());
                assert(tags.deep_view()[i as int] == tags@[i as int]@);
                assert(is_subseq(sh_tag@, tags.deep_view()[i as int]));
                assert(tag_in_tags(sh_tag@, tags.deep_view()));
            }
            *counter = *counter + 1;
            return true;
        }
        i = i + 1;
    }
    false
}

/// The abstract value of a [`TodoItem`].
pub struct TodoItemV {
    pub index: u64,
    pub description: Seq<char>,
    pub tags: Seq<Seq<char>>,
    pub done: bool,
}

/// An item is returned by a search exactly when it is still active and
/// every search word matches its description and every search tag matches
/// its tag list. Empty term lists constrain nothing.
pub open spec fn item_matches(it: TodoItemV, words: Seq<Seq<char>>, tags: Seq<Seq<char>>) -> bool {
    &&& !it.done
    &&& forall|k: int| 0 <= k < words.len() ==> word_in_desc(words[k], it.description)
    &&& forall|k: int| 0 <= k < tags.len() ==> tag_in_tags(tags[k], it.tags)
}

/// The items a search returns: the matching items, newest first.
pub open spec fn search_spec(items: Seq<TodoItemV>, words: Seq<Seq<char>>, tags: Seq<Seq<char>>) -> Seq<TodoItemV>
    decreases items.len(),
{
    if items.len() == 0 {
        Seq::empty()
    } else {
        let rest = search_spec(items.drop_last(), words, tags);
        if item_matches(items.last(), words, tags) {
            seq![items.last()] + rest
        } else {
            rest
        }
    }
}

/// `complete` succeeds exactly when `i` names an existing, still-active item.
pub open spec fn complete_ok(items: Seq<TodoItemV>, i: int) -> bool {
    0 <= i < items.len() && !items[i].done
}

/// The store's items after item `i` is marked done.
pub open spec fn mark_done(items: Seq<TodoItemV>, i: int) -> Seq<TodoItemV> {
    items.update(
        i,
        TodoItemV {
            index: items[i].index,
            description: items[i].description,
            tags: items[i].tags,
            done: true,
        },
    )
}

/// The identity of a todo item: assigned once by the store, never reused.
#[derive(Debug, Clone, Copy, PartialEq, Eq, Hash)]
pub struct Index(pub u64);

impl View for Index {
    type V = u64;

    open spec fn view(&self) -> u64 {
        self.0
    }
}

impl DeepView for Index {
    type V = u64;

    open spec fn deep_view(&self) -> u64 {
        self.0
    }
}

impl Index {
    pub fn new(i: u64) -> (r: Index)
        ensures
            r@ == i,
    {
        Index(i)
    }

    pub fn value(&self) -> (r: u64)
        ensures
            r == self@,
    {
        self.0
    }

    pub fn increement(&mut self)
        requires
            old(self)@ < u64::MAX,
        ensures
            final(self)@ == old(self)@ + 1,
    {
        self.0 = self.0 + 1;
    }
}

/// The free text of a todo entry: lowercase letters, dashes and whitespace.
#[derive(Debug, Clone, PartialEq, Eq)]
pub struct Description(pub String);

impl View for Description {
    type V = Seq<char>;

    open spec fn view(&self) -> Seq<char> {
        self.0@
    }
}

impl DeepView for Description {
    type V = Seq<char>;

    open spec fn deep_view(&self) -> Seq<char> {
        self.0@
    }
}

impl Description {
    pub fn new(s: &str) -> (r: Description)
        ensures
            r@ == s@,
    {
        Description(s.to_owned())
    }

    pub fn value(&self) -> (r: &str)
        ensures
            r@ == self@,
    {
        self.0.as_str()
    }
}

/// A single-token label on a todo entry: lowercase letters and dashes.
#[derive(Debug, Clone, PartialEq, Eq)]
pub struct Tag(pub String);

impl View for Tag {
    type V = Seq<char>;

    open spec fn view(&self) -> Seq<char> {
        self.0@
    }
}

impl DeepView for Tag {
    type V = Seq<char>;

    open spec fn deep_view(&self) -> Seq<char> {
        self.0@
    }
}

impl Tag {
    pub fn new(s: &str) -> (r: Tag)
        ensures
            r@ == s@,
    {
        Tag(s.to_owned())
    }

    pub fn value(&self) -> (r: &str)
        ensures
            r@ == self@,
    {
        self.0.as_str()
    }

    pub fn from_strings(ss: Vec<&str>) -> (r: Vec<Tag>)
        ensures
            r.deep_view() == ss.deep_view(),
    {
        let mut r: Vec<Tag> = Vec::new();
        let mut i: usize = 0;
        while i < ss.len()
            invariant
                i <= ss.len(),
                r.deep_view() =~~= ss.deep_view().take(i as int),
            decreases ss.len() - i,
        {
            let ghost prev = r.deep_view();
            proof {
                assert(r.deep_view().len() == i as int);
                assert(r@.len() == i as int);
            }
            r.push(Tag::new(ss[i]));
            proof {
                assert(r@[i as int].deep_view() == ss@[i as int].deep_view());
                assert(r.deep_view() =~~= prev.push(ss.deep_view()[i as int]));
                assert(r.deep_view() =~~= ss.deep_view().take(i + 1));
            }
            i = i + 1;
        }
        proof {
            assert(ss.deep_view().take(ss.len() as int) =~= ss.deep_view());
        }
        r
    }
}

/// One todo entry: identity, text, labels, and whether it is completed.
#[derive(Debug, Clone, PartialEq, Eq)]
pub struct TodoItem {
    pub index: Index,
    pub description: Description,
    pub tags: Vec<Tag>,
    pub done: bool,
}

impl DeepView for TodoItem {
    type V = TodoItemV;

    open spec fn deep_view(&self) -> TodoItemV {
        TodoItemV {
            index: self.index@,
            description: self.description@,
            tags: self.tags.deep_view(),
            done: self.done,
        }
    }
}

/// An element-wise copy of a tag list, with the same abstract value.
fn clone_tags(ts: &Vec<Tag>) -> (r: Vec<Tag>)
    ensures
        r.deep_view() == ts.deep_view(),
{
    let mut r: Vec<Tag> = Vec::new();
    let mut i: usize = 0;
    while i < ts.len()
        invariant
            i <= ts.len(),
            r.deep_view() =~~= ts.deep_view().take(i as int),
        decreases ts.len() - i,
    {
        let ghost prev = r.deep_view();
        proof {
            assert(ts.deep_view().len() == ts@.len());
            assert(r.deep_view().len() == i as int);
            assert(r@.len() == i as int);
        }
        r.push(Tag(ts[i].0.clone()));
        proof {
            assert(r@.len() == i + 1);
            assert(r@[i as int].deep_view() == ts@[i as int].deep_view());
            assert(r.deep_view() =~~= prev.push(ts.deep_view()[i as int]));
            assert(prev == ts.deep_view().take(i as int));
            assert(r.deep_view() =~~= ts.deep_view().take(i + 1));
        }
        i = i + 1;
    }
    proof {
        assert(ts.deep_view().take(ts.len() as int) =~= ts.deep_view());
    }
    r
}

/// Decides the match predicate for one item by counting satisfied terms
/// and comparing the count against the total term count, so that every
/// term is checked and none is skipped by an early failure.
fn matches_item(item: &TodoItem, sp: &crate::query::SearchParams) -> (r: bool)
    ensures
        r == item_matches(item.deep_view(), sp.words.deep_view(), sp.tags.deep_view()),
{
    let ghost wv = sp.words.deep_view();
    let ghost tv = sp.tags.deep_view();
    if item.done {
        return false;
    }
    let mut fw: usize = 0;
    let mut wi: usize = 0;
    while wi < sp.words.len()
        invariant
            wi <= sp.words.len(),
            fw <= wi,
            wv == sp.words.deep_view(),
            (fw == wi) == (forall|k: int|
                0 <= k < wi ==> word_in_desc(wv[k], item.description@)),
        decreases sp.words.len() - wi,
    {
        proof {
            assert(sp.words.deep_view()[wi as int] == sp.words@[wi as int]@);
        }
        find_words(item.description.value(), sp.words[wi].value(), &mut fw, false);
        wi = wi + 1;
    }
    let mut ft: usize = 0;
    let mut ti: usize = 0;
    while ti < sp.tags.len()
        invariant
            ti <= sp.tags.len(),
            ft <= ti,
            tv == sp.tags.deep_view(),
            (ft == ti) == (forall|k: int|
                0 <= k < ti ==> tag_in_tags(tv[k], item.tags.deep_view())),
        decreases sp.tags.len() - ti,
    {
        proof {
            assert(sp.tags.deep_view()[ti as int] == sp.tags@[ti as int]@);
        }
        find_tags(&item.tags, &sp.tags[ti], &mut ft, false);
        ti = ti + 1;
    }
    proof {
        assert(wv.len() == sp.words@.len());
        assert(tv.len() == sp.tags@.len());
    }
    fw == sp.words.len() && ft == sp.tags.len()
}

/// A copy of an item, with the same abstract value.
fn clone_item(it: &TodoItem) -> (r: TodoItem)
    ensures
        r.deep_view() == it.deep_view(),
{
    TodoItem {
        index: it.index,
        description: Description(it.description.0.clone()),
        tags: clone_tags(&it.tags),
        done: it.done,
    }
}

impl TodoItem {
    pub fn new(index: Index, description: Description, tags: Vec<Tag>) -> (r: TodoItem)
        ensures
            r.deep_view() == (TodoItemV {
                index: index@,
                description: description@,
                tags: tags.deep_view(),
                done: false,
            }),
    {
        TodoItem { index, description, tags, done: false }
    }
}

/// The store: an ordered collection of items and the next free index.
#[derive(Debug)]
pub struct TodoList {
    top_index: Index,
    items: Vec<TodoItem>,
}

impl View for TodoList {
    type V = Seq<TodoItemV>;

    closed spec fn view(&self) -> Seq<TodoItemV> {
        self.items.deep_view()
    }
}

impl TodoList {
    /// The store is well formed: the counter equals the item count and
    /// every item's index equals its position, so indices are assigned
    /// densely from zero and are never reused.
    pub closed spec fn wf(&self) -> bool {
        &&& self.top_index@ == self@.len()
        &&& self@.len() <= u64::MAX
        &&& forall|i: int| 0 <= i < self@.len() ==> #[trigger] self@[i].index == i
    }

    /// What well-formedness says of the visible state: indices equal
    /// positions, so they run 0, 1, 2, ... in insertion order.
    pub proof fn lemma_wf_indices(&self)
        requires
            self.wf(),
        ensures
            self@.len() <= u64::MAX,
            forall|i: int| 0 <= i < self@.len() ==> #[trigger] self@[i].index == i,
    {
    }

    pub fn new(capacity: usize) -> (r: TodoList)
        ensures
            r@ =~= Seq::<TodoItemV>::empty(),
            r.wf(),
    {
        TodoList { top_index: Index::new(0), items: Vec::with_capacity(capacity) }
    }

    /// Appends a fresh item carrying the next index and returns it.
    pub fn push(&mut self, description: Description, tags: Vec<Tag>) -> (r: TodoItem)
        requires
            old(self).wf(),
            old(self)@.len() < u64::MAX,
        ensures
            final(self).wf(),
            r.deep_view() == (TodoItemV {
                index: old(self)@.len() as u64,
                description: description@,
                tags: tags.deep_view(),
                done: false,
            }),
            final(self)@ =~= old(self)@.push(r.deep_view()),
    {
        let idx = self.top_index;
        let item = TodoItem::new(idx, description, tags);
        let r = clone_item(&item);
        self.items.push(item);
        self.top_index.increement();
        proof {
            assert(self@ =~= old(self)@.push(r.deep_view()));
        }
        r
    }

    /// Marks the item named by `idx` done, if it exists and is still
    /// active; a completed item can never be completed again.
    pub fn done_with_index(&mut self, idx: Index) -> (r: Option<Index>)
        requires
            old(self).wf(),
        ensures
            final(self).wf(),
            complete_ok(old(self)@, idx@ as int) ==> {
                &&& r == Some(idx)
                &&& final(self)@ == mark_done(old(self)@, idx@ as int)
            },
            !complete_ok(old(self)@, idx@ as int) ==> {
                &&& r == None::<Index>
                &&& final(self)@ == old(self)@
            },
    {
        if idx.value() < self.items.len() as u64 {
            let i = idx.value() as usize;
            if !self.items[i].done {
                self.items[i].done = true;
                proof {
                    assert(self@ =~= mark_done(old(self)@, idx@ as int));
                }
                Some(idx)
            } else {
                None
            }
        } else {
            None
        }
    }

    /// Evaluates the match predicate against every currently active item
    /// and returns copies of all matches, most recently added first.
    pub fn search(&self, sp: crate::query::SearchParams) -> (r: Vec<TodoItem>)
        ensures
            r.deep_view() == search_spec(self@, sp.words.deep_view(), sp.tags.deep_view()),
    {
        let ghost items = self@;
        let ghost wv = sp.words.deep_view();
        let ghost tv = sp.tags.deep_view();
        let mut r: Vec<TodoItem> = Vec::new();
        let mut i: usize = self.items.len();
        proof {
            assert(items.take(i as int) =~= items);
            assert(r.deep_view() + search_spec(items.take(i as int), wv, tv)
                =~= search_spec(items, wv, tv));
        }
        while i > 0
            invariant
                i <= self.items.len(),
                items == self@,
                wv == sp.words.deep_view(),
                tv == sp.tags.deep_view(),
                search_spec(items, wv, tv) == r.deep_view() + search_spec(
                    items.take(i as int),
                    wv,
                    tv,
                ),
            decreases i,
        {
            i = i - 1;
            let ghost t1 = items.take(i + 1);
            proof {
                assert(self.items@[i as int].deep_view() == items[i as int]);
                assert(t1.drop_last() =~= items.take(i as int));
                assert(t1.last() == items[i as int]);
            }
            if matches_item(&self.items[i], &sp) {
                let ghost prev = r.deep_view();
                let it = clone_item(&self.items[i]);
                r.push(it);
                proof {
                    assert(r.deep_view() =~~= prev.push(items[i as int]));
                    assert(search_spec(t1, wv, tv) == seq![items[i as int]] + search_spec(
                        items.take(i as int),
                        wv,
                        tv,
                    ));
                    assert(prev.push(items[i as int]) + search_spec(items.take(i as int), wv, tv)
                        =~= prev + search_spec(t1, wv, tv));
                }
            } else {
                proof {
                    assert(search_spec(t1, wv, tv) == search_spec(items.take(i as int), wv, tv));
                }
            }
        }
        proof {
            assert(items.take(0) =~= Seq::<TodoItemV>::empty());
            assert(search_spec(items.take(0), wv, tv) =~= Seq::<TodoItemV>::empty());
            assert(r.deep_view() + Seq::<TodoItemV>::empty() =~= r.deep_view());
        }
        r
    }
}

} // verus!
