//! A verified query processor for a small line-oriented todo-list language.
//!
//! A line of text holds one of three commands: `add "<sentence>" #tag ...`,
//! `done <digits>`, or `search <word-or-#tag> ...`. The parser turns the line
//! into a [`query::Query`], the store [`todo_list::TodoList`] applies it, and
//! the runner renders the outcome as text. Search uses token-wise character
//! subsequence matching, not substring search.

pub mod laws;
pub mod parser;
pub mod query;
pub mod runner;
pub mod todo_list;

pub use query::Query;
pub use query::QueryError;
pub use query::QueryResult;
pub use query::SearchParams;
pub use query::SearchWord;
pub use todo_list::Description;
pub use todo_list::Index;
pub use todo_list::Tag;
pub use todo_list::TodoItem;
pub use todo_list::TodoList;
