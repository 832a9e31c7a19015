use todo_swamp::runner;
use todo_swamp::Description;
use todo_swamp::Index;
use todo_swamp::Query;
use todo_swamp::QueryError;
use todo_swamp::QueryResult;
use todo_swamp::Tag;
use todo_swamp::TodoList;

#[test]
fn round_trip_example() {
    let mut tl = TodoList::new(4);
    assert_eq!(
        runner::run_line("add \"buy milk\" #shopping", &mut tl),
        Some("0".to_string())
    );
    assert_eq!(
        runner::run_line("add \"walk dog\" #pet", &mut tl),
        Some("1".to_string())
    );
    assert_eq!(runner::run_line("done 0", &mut tl), Some("done".to_string()));
    assert_eq!(
        runner::run_line("search #shopping", &mut tl),
        Some("0 item(s) found".to_string())
    );
}

#[test]
fn malformed_line_is_silently_ignored() {
    let mut tl = TodoList::new(2);
    runner::run_line("add \"x\"", &mut tl);
    let before = runner::run_line("search", &mut tl);
    assert_eq!(runner::run_line("addd \"x\"", &mut tl), None);
    let after = runner::run_line("search", &mut tl);
    assert_eq!(before, after);
}

#[test]
fn search_output_lists_items_newest_first() {
    let mut tl = TodoList::new(3);
    runner::run_line("add \"buy milk\" #shopping #dairy", &mut tl);
    runner::run_line("add \"walk dog\"", &mut tl);
    let out = runner::run_line("search", &mut tl).unwrap();
    assert_eq!(out, "2 item(s) found\n1 \"walk dog\"\n0 \"buy milk\" #shopping #dairy");
}

#[test]
fn done_on_unknown_index_reports_an_error() {
    let mut tl = TodoList::new(1);
    let out = runner::run_line("done 3", &mut tl).unwrap();
    assert_eq!(
        out,
        "Error: An error occurred while processing the query: no active item with that index."
    );
}

#[test]
fn done_twice_reports_an_error_the_second_time() {
    let mut tl = TodoList::new(1);
    runner::run_line("add \"x\"", &mut tl);
    assert_eq!(runner::run_line("done 0", &mut tl), Some("done".to_string()));
    let out = runner::run_line("done 0", &mut tl).unwrap();
    assert!(out.starts_with("Error: "));
}

#[test]
fn error_rendering_wraps_the_message() {
    let e = QueryError("boom".to_string());
    assert_eq!(
        e.render(),
        "An error occurred while processing the query: boom."
    );
}

#[test]
fn u64_rendering_is_plain_decimal() {
    assert_eq!(runner::u64_to_string(0), "0");
    assert_eq!(runner::u64_to_string(10), "10");
    assert_eq!(runner::u64_to_string(90210), "90210");
    assert_eq!(runner::u64_to_string(u64::MAX), "18446744073709551615");
}

#[test]
fn subsequence_matcher_examples() {
    assert!(todo_swamp::todo_list::subseq_match("tc", "total-call"));
    assert!(!todo_swamp::todo_list::subseq_match("tc", "cat"));
    assert!(todo_swamp::todo_list::subseq_match("", "anything"));
    assert!(!todo_swamp::todo_list::subseq_match("a", ""));
}

#[test]
fn find_words_counts_satisfied_terms() {
    let mut counter: usize = 0;
    assert!(!todo_swamp::todo_list::find_words("buy milk", "bm", &mut counter, false));
    assert_eq!(counter, 0);
    assert!(todo_swamp::todo_list::find_words("buy milk", "mk", &mut counter, false));
    assert_eq!(counter, 1);
    assert!(!todo_swamp::todo_list::find_words("buy milk", "mk", &mut counter, true));
    assert_eq!(counter, 1);
}

#[test]
fn add_answers_with_each_new_index() {
    let mut tl = TodoList::new(3);
    assert_eq!(runner::run_line("add \"a\"", &mut tl), Some("0".to_string()));
    assert_eq!(runner::run_line("add \"b\"", &mut tl), Some("1".to_string()));
    assert_eq!(runner::run_line("add \"c\"", &mut tl), Some("2".to_string()));
}

#[test]
fn search_with_words_and_tags_through_the_runner() {
    let mut tl = TodoList::new(2);
    runner::run_line("add \"buy milk\" #shopping", &mut tl);
    runner::run_line("add \"buy stamps\" #errand", &mut tl);
    let out = runner::run_line("search buy #shop", &mut tl).unwrap();
    assert_eq!(out, "1 item(s) found\n0 \"buy milk\" #shopping");
}

#[test]
fn run_query_dispatches_and_renders() {
    let mut tl = TodoList::new(2);
    let q = Query::Add(Description::new("buy milk"), vec![Tag::new("shopping")]);
    let r = runner::run_query(q, &mut tl).unwrap();
    match &r {
        QueryResult::Added(item) => assert_eq!(item.index.value(), 0),
        _ => panic!("expected an added result"),
    }
    assert_eq!(r.render(), "0");
    let r = runner::run_query(Query::Done(Index::new(0)), &mut tl).unwrap();
    assert_eq!(r.render(), "done");
    let r = runner::run_query(Query::Done(Index::new(0)), &mut tl);
    assert!(r.is_err());
}
