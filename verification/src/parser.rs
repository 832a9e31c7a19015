//! The grammar: one text line to a structured [`Query`], or a parse failure.
//!
//! Three command shapes are tried in order: `add "<sentence>" [#tag]*`,
//! `done <digits>`, and `search [<word>|#<tag>]*`. The keyword is followed
//! by one or more spaces or tabs, tokens are separated by one or more
//! spaces or tabs, and trailing whitespace is allowed; anything else left
//! over, or a digit run that overflows 64 bits, is a parse failure. The
//! spec-level functions [`spec_query`], [`spec_add`], [`spec_done`] and
//! [`spec_search`] define the grammar; the executable parser is proved to
//! decide them exactly.

use vstd::prelude::*;

use crate::query::Query;
use crate::query::QueryV;
use crate::query::SearchParams;
use crate::query::SearchWord;
use crate::todo_list::is_ws_char;
use crate::todo_list::skip_ws;
use crate::todo_list::spec_lower_or_dash;
use crate::todo_list::Description;
use crate::todo_list::Index;
use crate::todo_list::Tag;

verus! {

/// A character a quoted sentence may hold.
pub open spec fn spec_sentence_char(c: char) -> bool {
    spec_lower_or_dash(c) || is_ws_char(c)
}

/// An ASCII decimal digit.
pub open spec fn spec_digit(c: char) -> bool {
    '0' <= c && c <= '9'
}

/// The numeric value of one decimal digit character.
pub open spec fn digit_of(c: char) -> int {
    (c as u32) - 48
}

/// First position at or after `i` whose character is not a word character
/// (a lowercase letter or a dash).
pub open spec fn word_end(s: Seq<char>, i: int) -> int
    decreases s.len() - i,
{
    if i < s.len() && 0 <= i && spec_lower_or_dash(s[i]) {
        word_end(s, i + 1)
    } else {
        i
    }
}

/// First position at or after `i` whose character is not a digit.
pub open spec fn digits_end(s: Seq<char>, i: int) -> int
    decreases s.len() - i,
{
    if i < s.len() && 0 <= i && spec_digit(s[i]) {
        digits_end(s, i + 1)
    } else {
        i
    }
}

/// First position at or after `i` whose character is not a sentence
/// character.
pub open spec fn sentence_end(s: Seq<char>, i: int) -> int
    decreases s.len() - i,
{
    if i < s.len() && 0 <= i && spec_sentence_char(s[i]) {
        sentence_end(s, i + 1)
    } else {
        i
    }
}

pub broadcast proof fn lemma_digits_end(s: Seq<char>, i: int)
    requires
        0 <= i <= s.len(),
    ensures
        i <= #[trigger] digits_end(s, i) <= s.len(),
        forall|k: int| i <= k < digits_end(s, i) ==> spec_digit(s[k]),
        digits_end(s, i) < s.len() ==> !spec_digit(s[digits_end(s, i)]),
    decreases s.len() - i,
{
    if i < s.len() && spec_digit(s[i]) {
        lemma_digits_end(s, i + 1);
    }
}

/// The value of a run of decimal digit characters, most significant first.
pub open spec fn digits_val(ds: Seq<char>) -> int
    decreases ds.len(),
{
    if ds.len() == 0 {
        0
    } else {
        digits_val(ds.drop_last()) * 10 + digit_of(ds.last())
    }
}

proof fn lemma_digits_val_nonneg(ds: Seq<char>)
    requires
        forall|k: int| 0 <= k < ds.len() ==> spec_digit(#[trigger] ds[k]),
    ensures
        digits_val(ds) >= 0,
    decreases ds.len(),
{
    if ds.len() > 0 {
        lemma_digits_val_nonneg(ds.drop_last());
    }
}

/// A longer digit run never has a smaller value: the value of a prefix is
/// a lower bound for the value of the whole run.
proof fn lemma_digits_val_prefix(ds: Seq<char>, p: int)
    requires
        0 <= p <= ds.len(),
        forall|k: int| 0 <= k < ds.len() ==> spec_digit(#[trigger] ds[k]),
    ensures
        digits_val(ds.take(p)) <= digits_val(ds),
    decreases ds.len() - p,
{
    if p == ds.len() {
        assert(ds.take(p) =~= ds);
    } else {
        lemma_digits_val_prefix(ds, p + 1);
        let t = ds.take(p + 1);
        assert(t.drop_last() =~= ds.take(p));
        lemma_digits_val_nonneg(ds.take(p));
        assert(digits_val(ds.take(p)) <= digits_val(t));
    }
}

/// The tag list at the tail of an `add` command, starting at `i`: either
/// only whitespace remains, or one or more whitespace then `#` then a
/// non-empty word, repeated to the end of the line.
pub open spec fn spec_tags_list(s: Seq<char>, i: int) -> Option<Seq<Seq<char>>>
    decreases s.len() - i,
{
    let j = skip_ws(s, i);
    if j == s.len() {
        Some(Seq::empty())
    } else if i < j < s.len() && s[j] == '#' {
        let k = word_end(s, j + 1);
        if j + 1 < k <= s.len() {
            match spec_tags_list(s, k) {
                Some(rest) => Some(seq![s.subrange(j + 1, k)] + rest),
                None => None,
            }
        } else {
            None
        }
    } else {
        None
    }
}

/// One search token at position `i` (a non-whitespace position): a `#`-tag
/// or a bare word, paired with the position just past it. The flag is true
/// for a tag.
pub open spec fn spec_token_at(s: Seq<char>, i: int) -> Option<((bool, Seq<char>), int)> {
    if s[i] == '#' {
        let k = word_end(s, i + 1);
        if i + 1 < k <= s.len() {
            Some(((true, s.subrange(i + 1, k)), k))
        } else {
            None
        }
    } else {
        let k = word_end(s, i);
        if i < k <= s.len() {
            Some(((false, s.subrange(i, k)), k))
        } else {
            None
        }
    }
}

/// The search tokens from position `i` to the end of the line: whitespace-
/// separated words and `#`-tags, in encounter order, or a failure.
pub open spec fn spec_search_tokens(s: Seq<char>, i: int) -> Option<Seq<(bool, Seq<char>)>>
    decreases s.len() - i,
{
    let j = skip_ws(s, i);
    if j == s.len() {
        Some(Seq::empty())
    } else if i < j < s.len() {
        match spec_token_at(s, j) {
            Some((tok, k)) => {
                if j < k {
                    match spec_search_tokens(s, k) {
                        Some(rest) => Some(seq![tok] + rest),
                        None => None,
                    }
                } else {
                    None
                }
            },
            None => None,
        }
    } else {
        None
    }
}

/// The bare words of a token list, in encounter order.
pub open spec fn words_of(toks: Seq<(bool, Seq<char>)>) -> Seq<Seq<char>>
    decreases toks.len(),
{
    if toks.len() == 0 {
        Seq::empty()
    } else {
        words_of(toks.drop_last()) + if !toks.last().0 {
            seq![toks.last().1]
        } else {
            Seq::empty()
        }
    }
}

/// The `#`-tags of a token list, in encounter order.
pub open spec fn tags_of(toks: Seq<(bool, Seq<char>)>) -> Seq<Seq<char>>
    decreases toks.len(),
{
    if toks.len() == 0 {
        Seq::empty()
    } else {
        tags_of(toks.drop_last()) + if toks.last().0 {
            seq![toks.last().1]
        } else {
            Seq::empty()
        }
    }
}

/// The shape `add <ws>+ "<sentence>" (<ws>+ #<word>)* <ws>*`.
pub open spec fn spec_add(s: Seq<char>) -> Option<QueryV> {
    if s.len() >= 3 && s.subrange(0, 3) == seq!['a', 'd', 'd'] {
        let j = skip_ws(s, 3);
        if 3 < j < s.len() && s[j] == '"' {
            let e = sentence_end(s, j + 1);
            if j + 1 <= e < s.len() && s[e] == '"' {
                match spec_tags_list(s, e + 1) {
                    Some(ts) => Some(
                        QueryV::Add { description: s.subrange(j + 1, e), tags: ts },
                    ),
                    None => None,
                }
            } else {
                None
            }
        } else {
            None
        }
    } else {
        None
    }
}

/// The shape `done <ws>+ <digit>+ <ws>*`, where the digit run must fit in
/// an unsigned 64-bit integer.
pub open spec fn spec_done(s: Seq<char>) -> Option<QueryV> {
    if s.len() >= 4 && s.subrange(0, 4) == seq!['d', 'o', 'n', 'e'] {
        let j = skip_ws(s, 4);
        if 4 < j < s.len() {
            let k = digits_end(s, j);
            if j < k <= s.len() && skip_ws(s, k) == s.len() {
                let v = digits_val(s.subrange(j, k));
                if v <= u64::MAX {
                    Some(QueryV::Done { index: v as u64 })
                } else {
                    None
                }
            } else {
                None
            }
        } else {
            None
        }
    } else {
        None
    }
}

/// The shape `search (<ws>+ <word or #tag>)* <ws>*`.
pub open spec fn spec_search(s: Seq<char>) -> Option<QueryV> {
    if s.len() >= 6 && s.subrange(0, 6) == seq!['s', 'e', 'a', 'r', 'c', 'h'] {
        match spec_search_tokens(s, 6) {
            Some(toks) => Some(QueryV::Search { words: words_of(toks), tags: tags_of(toks) }),
            None => None,
        }
    } else {
        None
    }
}

/// The whole grammar: the first of `add`, `done`, `search` that matches.
pub open spec fn spec_query(s: Seq<char>) -> Option<QueryV> {
    if spec_add(s) is Some {
        spec_add(s)
    } else if spec_done(s) is Some {
        spec_done(s)
    } else {
        spec_search(s)
    }
}

/// Is `c` an ASCII lowercase letter, a space, a tab, or a dash?
pub fn is_lowecase_or_dash_or_whitespace(c: char) -> (r: bool)
    ensures
        r == spec_sentence_char(c),
{
    is_lowecase_or_dash(c) || c == ' ' || c == '\t'
}

/// Is `c` an ASCII lowercase letter or a dash?
pub fn is_lowecase_or_dash(c: char) -> (r: bool)
    ensures
        r == spec_lower_or_dash(c),
{
    ('a' <= c && c <= 'z') || c == '-'
}

/// Is `c` an ASCII decimal digit?
fn is_digit_char(c: char) -> (r: bool)
    ensures
        r == spec_digit(c),
{
    '0' <= c && c <= '9'
}

/// Advances over spaces and tabs.
fn scan_ws(s: &str, from: usize) -> (r: usize)
    requires
        from <= s@.len(),
    ensures
        r == skip_ws(s@, from as int),
        from <= r <= s@.len(),
{
    let len = s.unicode_len();
    let mut i: usize = from;
    loop
        invariant
            from <= i <= len,
            len == s@.len(),
            skip_ws(s@, from as int) == skip_ws(s@, i as int),
        ensures
            from <= i <= len,
            skip_ws(s@, from as int) == i,
        decreases len - i,
    {
        if i == len {
            proof {
                assert(skip_ws(s@, i as int) == i);
            }
            break;
        }
        let c = s.get_char(i);
        if !(c == ' ' || c == '\t') {
            proof {
                assert(skip_ws(s@, i as int) == i);
            }
            break;
        }
        proof {
            assert(skip_ws(s@, i as int) == skip_ws(s@, i + 1));
        }
        i = i + 1;
    }
    i
}

/// Advances over word characters.
fn scan_word(s: &str, from: usize) -> (r: usize)
    requires
        from <= s@.len(),
    ensures
        r == word_end(s@, from as int),
        from <= r <= s@.len(),
{
    let len = s.unicode_len();
    let mut i: usize = from;
    loop
        invariant
            from <= i <= len,
            len == s@.len(),
            word_end(s@, from as int) == word_end(s@, i as int),
        ensures
            from <= i <= len,
            word_end(s@, from as int) == i,
        decreases len - i,
    {
        if i == len {
            proof {
                assert(word_end(s@, i as int) == i);
            }
            break;
        }
        let c = s.get_char(i);
        if !is_lowecase_or_dash(c) {
            proof {
                assert(word_end(s@, i as int) == i);
            }
            break;
        }
        proof {
            assert(word_end(s@, i as int) == word_end(s@, i + 1));
        }
        i = i + 1;
    }
    i
}

/// Advances over digits.
fn scan_digits(s: &str, from: usize) -> (r: usize)
    requires
        from <= s@.len(),
    ensures
        r == digits_end(s@, from as int),
        from <= r <= s@.len(),
{
    let len = s.unicode_len();
    let mut i: usize = from;
    loop
        invariant
            from <= i <= len,
            len == s@.len(),
            digits_end(s@, from as int) == digits_end(s@, i as int),
        ensures
            from <= i <= len,
            digits_end(s@, from as int) == i,
        decreases len - i,
    {
        if i == len {
            proof {
                assert(digits_end(s@, i as int) == i);
            }
            break;
        }
        let c = s.get_char(i);
        if !is_digit_char(c) {
            proof {
                assert(digits_end(s@, i as int) == i);
            }
            break;
        }
        proof {
            assert(digits_end(s@, i as int) == digits_end(s@, i + 1));
        }
        i = i + 1;
    }
    i
}

/// Advances over sentence characters.
fn scan_sentence(s: &str, from: usize) -> (r: usize)
    requires
        from <= s@.len(),
    ensures
        r == sentence_end(s@, from as int),
        from <= r <= s@.len(),
{
    let len = s.unicode_len();
    let mut i: usize = from;
    loop
        invariant
            from <= i <= len,
            len == s@.len(),
            sentence_end(s@, from as int) == sentence_end(s@, i as int),
        ensures
            from <= i <= len,
            sentence_end(s@, from as int) == i,
        decreases len - i,
    {
        if i == len {
            proof {
                assert(sentence_end(s@, i as int) == i);
            }
            break;
        }
        let c = s.get_char(i);
        if !is_lowecase_or_dash_or_whitespace(c) {
            proof {
                assert(sentence_end(s@, i as int) == i);
            }
            break;
        }
        proof {
            assert(sentence_end(s@, i as int) == sentence_end(s@, i + 1));
        }
        i = i + 1;
    }
    i
}

/// Joins a run of digit characters into one unsigned 64-bit integer, or
/// reports that the run's value does not fit.
pub fn vec_to_u64(ds: &Vec<char>) -> (r: Option<u64>)
    requires
        forall|k: int| 0 <= k < ds@.len() ==> spec_digit(#[trigger] ds@[k]),
    ensures
        match r {
            Some(v) => v == digits_val(ds@),
            None => digits_val(ds@) > u64::MAX,
        },
{
    let mut acc: u64 = 0;
    let mut i: usize = 0;
    proof {
        assert(ds@.take(0) =~= Seq::<char>::empty());
    }
    while i < ds.len()
        invariant
            i <= ds@.len(),
            forall|k: int| 0 <= k < ds@.len() ==> spec_digit(#[trigger] ds@[k]),
            acc == digits_val(ds@.take(i as int)),
        decreases ds@.len() - i,
    {
        let c = ds[i];
        proof {
            assert(spec_digit(ds@[i as int]));
            assert((c as u32) >= 48 && (c as u32) <= 57);
        }
        let d: u64 = ((c as u32) - 48) as u64;
        // 1844674407370955161 == u64::MAX / 10; past it, or at it with a
        // final digit above 5, one more digit overflows.
        if acc > 1844674407370955161u64 || (acc == 1844674407370955161u64 && d > 5) {
            proof {
                let t = ds@.take(i + 1);
                assert(t.drop_last() =~= ds@.take(i as int));
                assert(t.last() == ds@[i as int]);
                assert(digits_val(t) == acc * 10 + d);
                assert(digits_val(t) > u64::MAX);
                lemma_digits_val_prefix(ds@, i + 1);
                assert(ds@.take(ds@.len() as int) =~= ds@);
            }
            return None;
        }
        proof {
            let t = ds@.take(i + 1);
            assert(t.drop_last() =~= ds@.take(i as int));
            assert(t.last() == ds@[i as int]);
            assert(digits_val(t) == acc * 10 + d);
        }
        acc = acc * 10 + d;
        i = i + 1;
    }
    proof {
        assert(ds@.take(ds@.len() as int) =~= ds@);
    }
    Some(acc)
}

/// One raw search token: a bare word or a `#`-tag, before bucketing.
enum SearchWordOrTag {
    RawWord(String),
    RawTag(String),
}

impl DeepView for SearchWordOrTag {
    type V = (bool, Seq<char>);

    closed spec fn deep_view(&self) -> (bool, Seq<char>) {
        match self {
            SearchWordOrTag::RawWord(w) => (false, w@),
            SearchWordOrTag::RawTag(t) => (true, t@),
        }
    }
}

/// Parses the `add` shape, or refuses the line.
pub fn add(s: &str) -> (r: Option<Query>)
    ensures
        match r {
            Some(q) => spec_add(s@) == Some(q.deep_view()),
            None => spec_add(s@) is None,
        },
{
    let ghost kw = seq!['a', 'd', 'd'];
    let len = s.unicode_len();
    if len < 3 {
        return None;
    }
    if !(s.get_char(0) == 'a' && s.get_char(1) == 'd' && s.get_char(2) == 'd') {
        proof {
            if s@.subrange(0, 3) == kw {
                assert(s@[0] == s@.subrange(0, 3)[0]);
                assert(s@[1] == s@.subrange(0, 3)[1]);
                assert(s@[2] == s@.subrange(0, 3)[2]);
            }
        }
        return None;
    }
    proof {
        assert(s@.subrange(0, 3) =~= kw);
    }
    let j = scan_ws(s, 3);
    if j == 3 || j == len {
        return None;
    }
    if s.get_char(j) != '"' {
        return None;
    }
    let e = scan_sentence(s, j + 1);
    if e == len {
        return None;
    }
    if s.get_char(e) != '"' {
        return None;
    }
    let d = s.substring_char(j + 1, e);
    match tags(s, e + 1) {
        Some(ts) => {
            let q = Query::Add(Description::new(d), ts);
            proof {
                assert(spec_add(s@) == Some(q.deep_view()));
            }
            Some(q)
        },
        None => None,
    }
}

/// Parses the tag list at the tail of an `add` line, from `from` to the
/// end, or refuses it.
fn tags(s: &str, from: usize) -> (r: Option<Vec<Tag>>)
    requires
        from <= s@.len(),
    ensures
        match r {
            Some(ts) => spec_tags_list(s@, from as int) == Some(ts.deep_view()),
            None => spec_tags_list(s@, from as int) is None,
        },
{
    let len = s.unicode_len();
    let mut acc: Vec<Tag> = Vec::new();
    let mut i: usize = from;
    proof {
        assert(acc.deep_view() =~= Seq::<Seq<char>>::empty());
    }
    loop
        invariant
            from <= i <= len,
            len == s@.len(),
            match spec_tags_list(s@, i as int) {
                Some(rest) => spec_tags_list(s@, from as int) == Some(acc.deep_view() + rest),
                None => spec_tags_list(s@, from as int) is None,
            },
        decreases len - i,
    {
        let j = scan_ws(s, i);
        if j == len {
            proof {
                assert(spec_tags_list(s@, i as int) == Some(Seq::<Seq<char>>::empty()));
                assert(acc.deep_view() + Seq::<Seq<char>>::empty() =~= acc.deep_view());
            }
            return Some(acc);
        }
        if j == i {
            return None;
        }
        if s.get_char(j) != '#' {
            return None;
        }
        let k = scan_word(s, j + 1);
        if k == j + 1 {
            return None;
        }
        let tagstr = s.substring_char(j + 1, k);
        let ghost prev = acc.deep_view();
        acc.push(Tag::new(tagstr));
        proof {
            let tv = s@.subrange(j + 1, k as int);
            assert(acc.deep_view() =~~= prev.push(tv));
            match spec_tags_list(s@, k as int) {
                Some(rest) => {
                    assert(spec_tags_list(s@, i as int) == Some(seq![tv] + rest));
                    assert(prev.push(tv) + rest =~= prev + (seq![tv] + rest));
                },
                None => {
                    assert(spec_tags_list(s@, i as int) is None);
                },
            }
        }
        i = k;
    }
}

/// Parses the `done` shape, or refuses the line.
pub fn done(s: &str) -> (r: Option<Query>)
    ensures
        match r {
            Some(q) => spec_done(s@) == Some(q.deep_view()),
            None => spec_done(s@) is None,
        },
{
    let ghost kw = seq!['d', 'o', 'n', 'e'];
    let len = s.unicode_len();
    if len < 4 {
        return None;
    }
    if !(s.get_char(0) == 'd' && s.get_char(1) == 'o' && s.get_char(2) == 'n' && s.get_char(3)
        == 'e') {
        proof {
            if s@.subrange(0, 4) == kw {
                assert(s@[0] == s@.subrange(0, 4)[0]);
                assert(s@[1] == s@.subrange(0, 4)[1]);
                assert(s@[2] == s@.subrange(0, 4)[2]);
                assert(s@[3] == s@.subrange(0, 4)[3]);
            }
        }
        return None;
    }
    proof {
        assert(s@.subrange(0, 4) =~= kw);
    }
    let j = scan_ws(s, 4);
    if j == 4 || j == len {
        return None;
    }
    let k = scan_digits(s, j);
    if k == j {
        return None;
    }
    let t = scan_ws(s, k);
    if t != len {
        return None;
    }
    let mut dsv: Vec<char> = Vec::new();
    let mut p: usize = j;
    proof {
        assert(dsv@ =~= s@.subrange(j as int, j as int));
    }
    while p < k
        invariant
            j <= p <= k <= len,
            len == s@.len(),
            dsv@ == s@.subrange(j as int, p as int),
        decreases k - p,
    {
        let c = s.get_char(p);
        dsv.push(c);
        proof {
            assert(s@.subrange(j as int, p + 1) =~= s@.subrange(j as int, p as int).push(
                s@[p as int],
            ));
        }
        p = p + 1;
    }
    proof {
        lemma_digits_end(s@, j as int);
        assert(forall|q: int| 0 <= q < dsv@.len() ==> spec_digit(#[trigger] dsv@[q])) by {
            assert(forall|q: int| 0 <= q < dsv@.len() ==> dsv@[q] == s@[j + q]);
        }
    }
    match vec_to_u64(&dsv) {
        Some(v) => {
            proof {
                assert(digits_val(s@.subrange(j as int, k as int)) == v);
                assert(spec_done(s@) == Some(QueryV::Done { index: v }));
            }
            Some(Query::Done(Index::new(v)))
        },
        None => {
            proof {
                assert(spec_done(s@) is None);
            }
            None
        },
    }
}

/// Parses one search token: a `#`-tag or a bare word.
fn search_word_or_tag(s: &str, at: usize) -> (r: Option<(SearchWordOrTag, usize)>)
    requires
        at < s@.len(),
        s@.len() <= usize::MAX,
    ensures
        match r {
            Some(tk) => {
                &&& spec_token_at(s@, at as int) == Some((tk.0.deep_view(), tk.1 as int))
                &&& at < tk.1 <= s@.len()
            },
            None => spec_token_at(s@, at as int) is None,
        },
{
    let c = s.get_char(at);
    if c == '#' {
        let k = scan_word(s, at + 1);
        if k == at + 1 {
            return None;
        }
        let t = s.substring_char(at + 1, k);
        Some((SearchWordOrTag::RawTag(t.to_owned()), k))
    } else {
        let k = scan_word(s, at);
        if k == at {
            return None;
        }
        let w = s.substring_char(at, k);
        Some((SearchWordOrTag::RawWord(w.to_owned()), k))
    }
}

/// Buckets raw search tokens into words and tags, each bucket keeping
/// encounter order.
fn mash_to_query(mash: Vec<SearchWordOrTag>) -> (q: Query)
    ensures
        q.deep_view() == (QueryV::Search {
            words: words_of(mash.deep_view()),
            tags: tags_of(mash.deep_view()),
        }),
{
    let ghost mv = mash.deep_view();
    let mut search_words: Vec<SearchWord> = Vec::new();
    let mut tags_acc: Vec<Tag> = Vec::new();
    let mut i: usize = 0;
    proof {
        assert(mv.take(0) =~= Seq::<(bool, Seq<char>)>::empty());
        assert(search_words.deep_view() =~= words_of(mv.take(0)));
        assert(tags_acc.deep_view() =~= tags_of(mv.take(0)));
    }
    while i < mash.len()
        invariant
            i <= mash.len(),
            mv == mash.deep_view(),
            search_words.deep_view() == words_of(mv.take(i as int)),
            tags_acc.deep_view() == tags_of(mv.take(i as int)),
        decreases mash.len() - i,
    {
        let ghost pw = search_words.deep_view();
        let ghost pt = tags_acc.deep_view();
        proof {
            let t1 = mv.take(i + 1);
            assert(t1.drop_last() =~= mv.take(i as int));
            assert(t1.last() == mv[i as int]);
            assert(mash@[i as int].deep_view() == mv[i as int]);
        }
        match &mash[i] {
            SearchWordOrTag::RawWord(w) => {
                search_words.push(SearchWord::new(w.as_str()));
                proof {
                    assert(search_words.deep_view() =~~= pw.push(mv[i as int].1));
                    assert(pw.push(mv[i as int].1) =~= pw + seq![mv[i as int].1]);
                    assert(words_of(mv.take(i + 1)) == pw + seq![mv[i as int].1]);
                    assert(tags_of(mv.take(i + 1)) == pt + Seq::<Seq<char>>::empty());
                    assert(pt + Seq::<Seq<char>>::empty() =~= pt);
                }
            },
            SearchWordOrTag::RawTag(t) => {
                tags_acc.push(Tag::new(t.as_str()));
                proof {
                    assert(tags_acc.deep_view() =~~= pt.push(mv[i as int].1));
                    assert(pt.push(mv[i as int].1) =~= pt + seq![mv[i as int].1]);
                    assert(tags_of(mv.take(i + 1)) == pt + seq![mv[i as int].1]);
                    assert(words_of(mv.take(i + 1)) == pw + Seq::<Seq<char>>::empty());
                    assert(pw + Seq::<Seq<char>>::empty() =~= pw);
                }
            },
        }
        i = i + 1;
    }
    proof {
        assert(mv.take(mash.len() as int) =~= mv);
    }
    Query::Search(SearchParams { words: search_words, tags: tags_acc })
}

/// Parses the `search` shape, or refuses the line.
pub fn search(s: &str) -> (r: Option<Query>)
    ensures
        match r {
            Some(q) => spec_search(s@) == Some(q.deep_view()),
            None => spec_search(s@) is None,
        },
{
    let ghost kw = seq!['s', 'e', 'a', 'r', 'c', 'h'];
    let len = s.unicode_len();
    if len < 6 {
        return None;
    }
    if !(s.get_char(0) == 's' && s.get_char(1) == 'e' && s.get_char(2) == 'a' && s.get_char(3)
        == 'r' && s.get_char(4) == 'c' && s.get_char(5) == 'h') {
        proof {
            if s@.subrange(0, 6) == kw {
                assert(s@[0] == s@.subrange(0, 6)[0]);
                assert(s@[1] == s@.subrange(0, 6)[1]);
                assert(s@[2] == s@.subrange(0, 6)[2]);
                assert(s@[3] == s@.subrange(0, 6)[3]);
                assert(s@[4] == s@.subrange(0, 6)[4]);
                assert(s@[5] == s@.subrange(0, 6)[5]);
            }
        }
        return None;
    }
    proof {
        assert(s@.subrange(0, 6) =~= kw);
    }
    let mut mash: Vec<SearchWordOrTag> = Vec::new();
    let mut i: usize = 6;
    proof {
        assert(mash.deep_view() =~= Seq::<(bool, Seq<char>)>::empty());
    }
    loop
        invariant
            6 <= i <= len,
            len == s@.len(),
            s@.len() >= 6,
            s@.subrange(0, 6) == kw,
            kw == seq!['s', 'e', 'a', 'r', 'c', 'h'],
            match spec_search_tokens(s@, i as int) {
                Some(rest) => spec_search_tokens(s@, 6) == Some(mash.deep_view() + rest),
                None => spec_search_tokens(s@, 6) is None,
            },
        decreases len - i,
    {
        let j = scan_ws(s, i);
        if j == len {
            proof {
                assert(spec_search_tokens(s@, i as int) == Some(
                    Seq::<(bool, Seq<char>)>::empty(),
                ));
                assert(mash.deep_view() + Seq::<(bool, Seq<char>)>::empty() =~= mash.deep_view());
            }
            let q = mash_to_query(mash);
            proof {
                assert(spec_search(s@) == Some(q.deep_view()));
            }
            return Some(q);
        }
        if j == i {
            return None;
        }
        match search_word_or_tag(s, j) {
            Some(tk) => {
                let ghost prev = mash.deep_view();
                let k = tk.1;
                mash.push(tk.0);
                proof {
                    let tokv = prev.push(mash@[mash@.len() - 1].deep_view());
                    assert(mash.deep_view() =~~= tokv);
                    match spec_search_tokens(s@, k as int) {
                        Some(rest) => {
                            assert(spec_search_tokens(s@, i as int) == Some(
                                seq![mash@[mash@.len() - 1].deep_view()] + rest,
                            ));
                            assert(tokv + rest =~= prev + (
                            seq![mash@[mash@.len() - 1].deep_view()] + rest));
                        },
                        None => {
                            assert(spec_search_tokens(s@, i as int) is None);
                        },
                    }
                }
                i = k;
            },
            None => {
                proof {
                    assert(spec_search_tokens(s@, i as int) is None);
                }
                return None;
            },
        }
    }
}

/// Parses one line: the first of `add`, `done`, `search` that matches, or
/// a parse failure.
pub fn query(input: &str) -> (r: Option<Query>)
    ensures
        match r {
            Some(q) => spec_query(input@) == Some(q.deep_view()),
            None => spec_query(input@) is None,
        },
{
    let ra = crate::parser::add(input);
    if let Some(q) = ra {
        return Some(q);
    }
    let rd = crate::parser::done(input);
    if let Some(q) = rd {
        return Some(q);
    }
    crate::parser::search(input)
}

} // verus!
