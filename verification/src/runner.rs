//! Dispatch: parse a line, run it against the store, render the outcome.
//!
//! [`run_line`] is the whole pipeline for one line of input: a line that
//! parses is applied to the store and rendered as the store's answer; a
//! line that does not parse yields no output and leaves the store as it
//! was.

use vstd::prelude::*;

use crate::parser;
use crate::query::Query;
use crate::query::QueryError;
use crate::query::QueryResult;
use crate::query::QueryV;
use crate::query::spec_render_error;
use crate::todo_list::complete_ok;
use crate::todo_list::mark_done;
use crate::todo_list::search_spec;
use crate::todo_list::TodoItem;
use crate::todo_list::TodoItemV;
use crate::todo_list::TodoList;

verus! {

/// The decimal digit character for one digit value.
pub open spec fn digit_char(d: int) -> char {
    if d == 0 {
        '0'
    } else if d == 1 {
        '1'
    } else if d == 2 {
        '2'
    } else if d == 3 {
        '3'
    } else if d == 4 {
        '4'
    } else if d == 5 {
        '5'
    } else if d == 6 {
        '6'
    } else if d == 7 {
        '7'
    } else if d == 8 {
        '8'
    } else {
        '9'
    }
}

/// The decimal rendering of a non-negative integer, without leading
/// zeroes (except for zero itself).
pub open spec fn spec_dec(n: int) -> Seq<char>
    decreases n,
{
    if n < 10 {
        seq![digit_char(n)]
    } else {
        spec_dec(n / 10) + seq![digit_char(n % 10)]
    }
}

/// The decimal digits of `ds[i..]`, least significant digit stored first,
/// rendered most significant digit first.
spec fn suffix_rev(ds: Seq<u64>, i: int) -> Seq<char>
    decreases ds.len() - i,
{
    if i < 0 || i >= ds.len() {
        Seq::empty()
    } else {
        suffix_rev(ds, i + 1) + seq![digit_char(ds[i] as int)]
    }
}

proof fn lemma_suffix_rev_push(ds: Seq<u64>, d: u64, i: int)
    requires
        0 <= i <= ds.len(),
    ensures
        suffix_rev(ds.push(d), i) == seq![digit_char(d as int)] + suffix_rev(ds, i),
    decreases ds.len() - i,
{
    let e = ds.push(d);
    if i == ds.len() {
        assert(suffix_rev(e, i + 1) =~= Seq::<char>::empty());
        assert(suffix_rev(e, i) =~= seq![digit_char(d as int)] + suffix_rev(ds, i));
    } else {
        lemma_suffix_rev_push(ds, d, i + 1);
        assert(e[i] == ds[i]);
        assert(suffix_rev(e, i) == suffix_rev(e, i + 1) + seq![digit_char(ds[i] as int)]);
        assert((seq![digit_char(d as int)] + suffix_rev(ds, i + 1)) + seq![
            digit_char(ds[i] as int),
        ] =~= seq![digit_char(d as int)] + suffix_rev(ds, i));
    }
}

/// The string slice holding one decimal digit.
fn digit_str(d: u64) -> (r: &'static str)
    requires
        d < 10,
    ensures
        r@ == seq![digit_char(d as int)],
{
    if d == 0 {
        proof {
            reveal_strlit("0");
            assert("0"@ =~= seq![digit_char(0)]);
        }
        "0"
    } else if d == 1 {
        proof {
            reveal_strlit("1");
            assert("1"@ =~= seq![digit_char(1)]);
        }
        "1"
    } else if d == 2 {
        proof {
            reveal_strlit("2");
            assert("2"@ =~= seq![digit_char(2)]);
        }
        "2"
    } else if d == 3 {
        proof {
            reveal_strlit("3");
            assert("3"@ =~= seq![digit_char(3)]);
        }
        "3"
    } else if d == 4 {
        proof {
            reveal_strlit("4");
            assert("4"@ =~= seq![digit_char(4)]);
        }
        "4"
    } else if d == 5 {
        proof {
            reveal_strlit("5");
            assert("5"@ =~= seq![digit_char(5)]);
        }
        "5"
    } else if d == 6 {
        proof {
            reveal_strlit("6");
            assert("6"@ =~= seq![digit_char(6)]);
        }
        "6"
    } else if d == 7 {
        proof {
            reveal_strlit("7");
            assert("7"@ =~= seq![digit_char(7)]);
        }
        "7"
    } else if d == 8 {
        proof {
            reveal_strlit("8");
            assert("8"@ =~= seq![digit_char(8)]);
        }
        "8"
    } else {
        proof {
            reveal_strlit("9");
            assert("9"@ =~= seq![digit_char(9)]);
        }
        "9"
    }
}

/// Renders an unsigned 64-bit integer in decimal.
pub fn u64_to_string(n: u64) -> (r: String)
    ensures
        r@ == spec_dec(n as int),
{
    let mut digits: Vec<u64> = Vec::new();
    let mut m: u64 = n;
    loop
        invariant
            forall|k: int| 0 <= k < digits@.len() ==> #[trigger] digits@[k] < 10,
            m > 0 ==> spec_dec(n as int) == spec_dec(m as int) + suffix_rev(digits@, 0),
            m == 0 ==> ((digits@.len() > 0 && spec_dec(n as int) == suffix_rev(digits@, 0)) || (
            digits@.len() == 0 && n == 0)),
        ensures
            digits@.len() > 0,
            spec_dec(n as int) == suffix_rev(digits@, 0),
            forall|k: int| 0 <= k < digits@.len() ==> #[trigger] digits@[k] < 10,
        decreases m + if digits@.len() == 0 {
            1int
        } else {
            0int
        },
    {
        if m == 0 && digits.len() > 0 {
            break;
        }
        let ghost prev = digits@;
        let d = m % 10;
        digits.push(d);
        proof {
            lemma_suffix_rev_push(prev, d, 0);
            if m == 0 {
                assert(spec_dec(0int) =~= seq![digit_char(0)]);
                assert(suffix_rev(digits@, 0) =~= seq![digit_char(0)]);
            } else if m / 10 > 0 {
                assert(spec_dec(m as int) == spec_dec(m as int / 10) + seq![
                    digit_char(m as int % 10),
                ]);
                assert(spec_dec(m as int / 10) + (seq![digit_char(d as int)] + suffix_rev(prev, 0))
                    =~= spec_dec(m as int) + suffix_rev(prev, 0));
            } else {
                assert(spec_dec(m as int) == seq![digit_char(m as int)]);
                assert(seq![digit_char(d as int)] + suffix_rev(prev, 0) =~= spec_dec(m as int)
                    + suffix_rev(prev, 0));
            }
        }
        m = m / 10;
    }
    let mut out = String::new();
    let mut i: usize = digits.len();
    proof {
        assert(suffix_rev(digits@, i as int) =~= Seq::<char>::empty());
        assert(out@ =~= suffix_rev(digits@, i as int));
    }
    while i > 0
        invariant
            i <= digits@.len(),
            forall|k: int| 0 <= k < digits@.len() ==> #[trigger] digits@[k] < 10,
            spec_dec(n as int) == suffix_rev(digits@, 0),
            out@ == suffix_rev(digits@, i as int),
        decreases i,
    {
        i = i - 1;
        out.append(digit_str(digits[i]));
        proof {
            assert(suffix_rev(digits@, i as int) == suffix_rev(digits@, i + 1) + seq![
                digit_char(digits@[i as int] as int),
            ]);
            assert(out@ =~= suffix_rev(digits@, i as int));
        }
    }
    out
}

/// The rendering of one item's tag list: a space and a `#` before each tag.
pub open spec fn spec_render_tags(ts: Seq<Seq<char>>, i: int) -> Seq<char>
    decreases ts.len() - i,
{
    if i < 0 || i >= ts.len() {
        Seq::empty()
    } else {
        seq![' ', '#'] + ts[i] + spec_render_tags(ts, i + 1)
    }
}

/// The rendering of one found item: its index, its quoted description,
/// and its tags.
pub open spec fn spec_render_item(it: TodoItemV) -> Seq<char> {
    spec_dec(it.index as int) + seq![' ', '"'] + it.description + seq!['"'] + spec_render_tags(
        it.tags,
        0,
    )
}

/// The item lines of a search answer, one line per item.
pub open spec fn spec_render_lines(items: Seq<TodoItemV>, i: int) -> Seq<char>
    decreases items.len() - i,
{
    if i < 0 || i >= items.len() {
        Seq::empty()
    } else {
        seq!['\n'] + spec_render_item(items[i]) + spec_render_lines(items, i + 1)
    }
}

/// The whole search answer: the count line, then one line per found item.
pub open spec fn spec_render_found(items: Seq<TodoItemV>) -> Seq<char> {
    spec_dec(items.len() as int) + " item(s) found"@ + spec_render_lines(items, 0)
}

/// The message of the only modeled failure: `done` on an index that names
/// no active item.
pub open spec fn unknown_index_msg() -> Seq<char> {
    "no active item with that index"@
}

/// The output line of a failed query.
pub open spec fn spec_error_line() -> Seq<char> {
    "Error: "@ + spec_render_error(unknown_index_msg())
}

/// Renders one found item as `index "description" #tag ...`.
fn render_item(it: &TodoItem) -> (r: String)
    ensures
        r@ == spec_render_item(it.deep_view()),
{
    let mut s = u64_to_string(it.index.value());
    s.append(" \"");
    proof {
        reveal_strlit(" \"");
        assert(" \""@ =~= seq![' ', '"']);
    }
    s.append(it.description.value());
    s.append("\"");
    proof {
        reveal_strlit("\"");
        assert("\""@ =~= seq!['"']);
    }
    let ghost base = s@;
    let ghost tv = it.tags.deep_view();
    let mut i: usize = 0;
    proof {
        assert(base + spec_render_tags(tv, 0) =~= s@ + spec_render_tags(tv, 0));
    }
    while i < it.tags.len()
        invariant
            i <= it.tags.len(),
            tv == it.tags.deep_view(),
            base + spec_render_tags(tv, 0) == s@ + spec_render_tags(tv, i as int),
        decreases it.tags.len() - i,
    {
        let ghost before = s@;
        s.append(" #");
        proof {
            reveal_strlit(" #");
            assert(" #"@ =~= seq![' ', '#']);
        }
        s.append(it.tags[i].value());
        proof {
            assert(it.tags@[i as int]@ == tv[i as int]);
            assert(spec_render_tags(tv, i as int) == seq![' ', '#'] + tv[i as int]
                + spec_render_tags(tv, i + 1));
            assert(before + spec_render_tags(tv, i as int) =~= s@ + spec_render_tags(tv, i + 1));
        }
        i = i + 1;
    }
    proof {
        assert(spec_render_tags(tv, it.tags@.len() as int) =~= Seq::<char>::empty());
        assert(s@ + Seq::<char>::empty() =~= s@);
        assert(s@ =~= base + spec_render_tags(tv, 0));
        assert(base + spec_render_tags(tv, 0) =~= spec_render_item(it.deep_view()));
    }
    s
}

impl QueryResult {
    /// The result as text: the new index for `Added`, the word `done` for
    /// `Done`, and the count line plus one line per item for `Found`.
    pub fn render(&self) -> (r: String)
        ensures
            match self {
                QueryResult::Added(ti) => r@ == spec_dec(ti.deep_view().index as int),
                QueryResult::Done => r@ == "done"@,
                QueryResult::Found(rs) => r@ == spec_render_found(rs.deep_view()),
            },
    {
        match self {
            QueryResult::Added(ti) => u64_to_string(ti.index.value()),
            QueryResult::Done => "done".to_owned(),
            QueryResult::Found(rs) => {
                let ghost iv = rs.deep_view();
                let mut s = u64_to_string(rs.len() as u64);
                s.append(" item(s) found");
                let ghost base = s@;
                let mut i: usize = 0;
                proof {
                    assert(iv.len() == rs@.len());
                    assert(base + spec_render_lines(iv, 0) =~= s@ + spec_render_lines(iv, 0));
                }
                while i < rs.len()
                    invariant
                        i <= rs@.len(),
                        iv == rs.deep_view(),
                        base + spec_render_lines(iv, 0) == s@ + spec_render_lines(iv, i as int),
                    decreases rs@.len() - i,
                {
                    let ghost before = s@;
                    s.append("\n");
                    proof {
                        reveal_strlit("\n");
                        assert("\n"@ =~= seq!['\n']);
                    }
                    let line = render_item(&rs[i]);
                    s.append(line.as_str());
                    proof {
                        assert(rs@[i as int].deep_view() == iv[i as int]);
                        assert(spec_render_lines(iv, i as int) == seq!['\n'] + spec_render_item(
                            iv[i as int],
                        ) + spec_render_lines(iv, i + 1));
                        assert(before + spec_render_lines(iv, i as int) =~= s@ + spec_render_lines(
                            iv,
                            i + 1,
                        ));
                    }
                    i = i + 1;
                }
                proof {
                    assert(spec_render_lines(iv, rs@.len() as int) =~= Seq::<char>::empty());
                    assert(s@ + Seq::<char>::empty() =~= s@);
                    assert(s@ =~= base + spec_render_lines(iv, 0));
                    assert(base =~= spec_dec(iv.len() as int) + " item(s) found"@);
                }
                s
            },
        }
    }
}

/// Applies one parsed query to the store: `Add` appends and answers with
/// the new item, `Done` marks the named item done or fails if no active
/// item carries that index, `Search` answers with the matching items,
/// newest first.
pub fn run_query(q: Query, tl: &mut TodoList) -> (r: Result<QueryResult, QueryError>)
    requires
        old(tl).wf(),
        old(tl)@.len() < u64::MAX,
    ensures
        final(tl).wf(),
        match q.deep_view() {
            QueryV::Add { description, tags } => match r {
                Ok(QueryResult::Added(item)) => {
                    &&& item.deep_view() == (TodoItemV {
                        index: old(tl)@.len() as u64,
                        description,
                        tags,
                        done: false,
                    })
                    &&& final(tl)@ == old(tl)@.push(item.deep_view())
                },
                _ => false,
            },
            QueryV::Done { index } => {
                if complete_ok(old(tl)@, index as int) {
                    &&& r == Ok::<QueryResult, QueryError>(QueryResult::Done)
                    &&& final(tl)@ == mark_done(old(tl)@, index as int)
                } else {
                    &&& final(tl)@ == old(tl)@
                    &&& match r {
                        Err(e) => e.0@ == unknown_index_msg(),
                        _ => false,
                    }
                }
            },
            QueryV::Search { words, tags } => {
                &&& final(tl)@ == old(tl)@
                &&& match r {
                    Ok(QueryResult::Found(items)) => items.deep_view() == search_spec(
                        old(tl)@,
                        words,
                        tags,
                    ),
                    _ => false,
                }
            },
        },
{
    match q {
        Query::Add(description, tags) => {
            let item = tl.push(description, tags);
            Ok(QueryResult::Added(item))
        },
        Query::Done(idx) => match tl.done_with_index(idx) {
            Some(_) => Ok(QueryResult::Done),
            None => Err(QueryError("no active item with that index".to_owned())),
        },
        Query::Search(params) => {
            let items = tl.search(params);
            Ok(QueryResult::Found(items))
        },
    }
}

/// Runs one line of input against the store. A line that does not parse
/// yields no output and no state change; a parsed query is applied and
/// its answer rendered, one output text per line.
pub fn run_line(line: &str, tl: &mut TodoList) -> (r: Option<String>)
    requires
        old(tl).wf(),
        old(tl)@.len() < u64::MAX,
    ensures
        final(tl).wf(),
        match parser::spec_query(line@) {
            None => r is None && final(tl)@ == old(tl)@,
            Some(qv) => match qv {
                QueryV::Add { description, tags } => {
                    &&& final(tl)@ == old(tl)@.push(TodoItemV {
                        index: old(tl)@.len() as u64,
                        description,
                        tags,
                        done: false,
                    })
                    &&& match r {
                        Some(out) => out@ == spec_dec(old(tl)@.len() as int),
                        None => false,
                    }
                },
                QueryV::Done { index } => {
                    if complete_ok(old(tl)@, index as int) {
                        &&& final(tl)@ == mark_done(old(tl)@, index as int)
                        &&& match r {
                            Some(out) => out@ == "done"@,
                            None => false,
                        }
                    } else {
                        &&& final(tl)@ == old(tl)@
                        &&& match r {
                            Some(out) => out@ == spec_error_line(),
                            None => false,
                        }
                    }
                },
                QueryV::Search { words, tags } => {
                    &&& final(tl)@ == old(tl)@
                    &&& match r {
                        Some(out) => out@ == spec_render_found(
                            search_spec(old(tl)@, words, tags),
                        ),
                        None => false,
                    }
                },
            },
        },
{
    if let Some(q) = parser::query(line) {
        match run_query(q, tl) {
            Ok(res) => {
                let out = res.render();
                Some(out)
            },
            Err(e) => {
                let mut s = "Error: ".to_owned();
                let body = e.render();
                s.append(body.as_str());
                Some(s)
            },
        }
    } else {
        None
    }
}

} // verus!
