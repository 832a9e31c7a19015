//! The parsed form of one command line and the outcome of running it.

use vstd::prelude::*;

use crate::todo_list::Description;
use crate::todo_list::Index;
use crate::todo_list::Tag;
use crate::todo_list::TodoItem;

verus! {

/// The abstract value of a parsed command.
pub enum QueryV {
    Add { description: Seq<char>, tags: Seq<Seq<char>> },
    Done { index: u64 },
    Search { words: Seq<Seq<char>>, tags: Seq<Seq<char>> },
}

/// One parsed command, ready to run against the store.
#[derive(Debug, Clone, PartialEq, Eq)]
pub enum Query {
    Add(Description, Vec<Tag>),
    Done(Index),
    Search(SearchParams),
}

impl DeepView for Query {
    type V = QueryV;

    open spec fn deep_view(&self) -> QueryV {
        match self {
            Query::Add(d, ts) => QueryV::Add { description: d@, tags: ts.deep_view() },
            Query::Done(i) => QueryV::Done { index: i@ },
            Query::Search(sp) => QueryV::Search {
                words: sp.words.deep_view(),
                tags: sp.tags.deep_view(),
            },
        }
    }
}

/// The terms of a `search` command: bare words and `#`-tags, each bucket
/// in encounter order, each possibly empty.
#[derive(Debug, Clone, PartialEq, Eq)]
pub struct SearchParams {
    pub words: Vec<SearchWord>,
    pub tags: Vec<Tag>,
}

/// One bare search word.
#[derive(Debug, Clone, PartialEq, Eq)]
pub struct SearchWord(pub String);

impl View for SearchWord {
    type V = Seq<char>;

    open spec fn view(&self) -> Seq<char> {
        self.0@
    }
}

impl DeepView for SearchWord {
    type V = Seq<char>;

    open spec fn deep_view(&self) -> Seq<char> {
        self.0@
    }
}

impl SearchWord {
    pub fn new(s: &str) -> (r: SearchWord)
        ensures
            r@ == s@,
    {
        SearchWord(s.to_owned())
    }

    pub fn value(&self) -> (r: &str)
        ensures
            r@ == self@,
    {
        self.0.as_str()
    }
}

/// What a successfully run command produced.
#[derive(Debug, Clone, PartialEq, Eq)]
pub enum QueryResult {
    Added(TodoItem),
    Done,
    Found(Vec<TodoItem>),
}

/// The failure of a run command; today only an unknown index on `done`.
/// The field is the human-readable message.
#[derive(Debug, Clone, PartialEq, Eq)]
pub struct QueryError(pub String);

/// The rendering of a [`QueryError`], as [`QueryError::render`] returns it.
pub open spec fn spec_render_error(msg: Seq<char>) -> Seq<char> {
    "An error occurred while processing the query: "@ + msg + "."@
}

impl QueryError {
    /// The error as one line of text, without the leading `Error: ` marker.
    pub fn render(&self) -> (r: String)
        ensures
            r@ == spec_render_error(self.0@),
    {
        let mut s = "An error occurred while processing the query: ".to_owned();
        s.append(self.0.as_str());
        s.append(".");
        s
    }
}

} // verus!
