use todo_swamp::parser;
use todo_swamp::Query;

#[test]
fn parses_add_with_tags() {
    let q = parser::query("add \"buy milk\" #shopping #errand");
    match q {
        Some(Query::Add(d, ts)) => {
            assert_eq!(d.value(), "buy milk");
            assert_eq!(ts.len(), 2);
            assert_eq!(ts[0].value(), "shopping");
            assert_eq!(ts[1].value(), "errand");
        }
        _ => panic!("expected an add query"),
    }
}

#[test]
fn parses_add_without_tags() {
    let q = parser::query("add \"walk the dog\"");
    match q {
        Some(Query::Add(d, ts)) => {
            assert_eq!(d.value(), "walk the dog");
            assert!(ts.is_empty());
        }
        _ => panic!("expected an add query"),
    }
}

#[test]
fn parses_add_empty_sentence() {
    let q = parser::query("add \"\"");
    match q {
        Some(Query::Add(d, ts)) => {
            assert_eq!(d.value(), "");
            assert!(ts.is_empty());
        }
        _ => panic!("expected an add query"),
    }
}

#[test]
fn rejects_add_with_unterminated_sentence() {
    assert!(parser::query("add \"buy milk").is_none());
}

#[test]
fn rejects_add_with_uppercase_in_sentence() {
    assert!(parser::query("add \"Buy milk\"").is_none());
}

#[test]
fn rejects_add_with_empty_tag() {
    assert!(parser::query("add \"buy milk\" #").is_none());
}

#[test]
fn rejects_add_with_tag_glued_to_quote() {
    assert!(parser::query("add \"buy milk\"#shopping").is_none());
}

#[test]
fn parses_done() {
    let q = parser::query("done 42");
    match q {
        Some(Query::Done(i)) => assert_eq!(i.value(), 42),
        _ => panic!("expected a done query"),
    }
}

#[test]
fn parses_done_with_trailing_whitespace() {
    let q = parser::query("done 7 ");
    match q {
        Some(Query::Done(i)) => assert_eq!(i.value(), 7),
        _ => panic!("expected a done query"),
    }
}

#[test]
fn parses_done_at_u64_max() {
    let q = parser::query("done 18446744073709551615");
    match q {
        Some(Query::Done(i)) => assert_eq!(i.value(), u64::MAX),
        _ => panic!("expected a done query"),
    }
}

#[test]
fn rejects_done_past_u64_max() {
    assert!(parser::query("done 18446744073709551616").is_none());
}

#[test]
fn rejects_done_without_digits() {
    assert!(parser::query("done ").is_none());
}

#[test]
fn rejects_done_with_trailing_content() {
    assert!(parser::query("done 4 5").is_none());
}

#[test]
fn rejects_done_glued_to_digits() {
    assert!(parser::query("done5").is_none());
}

#[test]
fn parses_search_words_and_tags() {
    let q = parser::query("search alpha #beta gamma");
    match q {
        Some(Query::Search(sp)) => {
            assert_eq!(sp.words.len(), 2);
            assert_eq!(sp.words[0].value(), "alpha");
            assert_eq!(sp.words[1].value(), "gamma");
            assert_eq!(sp.tags.len(), 1);
            assert_eq!(sp.tags[0].value(), "beta");
        }
        _ => panic!("expected a search query"),
    }
}

#[test]
fn parses_empty_search() {
    let q = parser::query("search ");
    match q {
        Some(Query::Search(sp)) => {
            assert!(sp.words.is_empty());
            assert!(sp.tags.is_empty());
        }
        _ => panic!("expected a search query"),
    }
}

#[test]
fn parses_bare_search_keyword() {
    let q = parser::query("search");
    match q {
        Some(Query::Search(sp)) => {
            assert!(sp.words.is_empty());
            assert!(sp.tags.is_empty());
        }
        _ => panic!("expected a search query"),
    }
}

#[test]
fn rejects_search_with_uppercase_token() {
    assert!(parser::query("search Alpha").is_none());
}

#[test]
fn rejects_misspelled_keyword() {
    assert!(parser::query("addd \"x\"").is_none());
}

#[test]
fn rejects_empty_line() {
    assert!(parser::query("").is_none());
}

#[test]
fn rejects_unknown_command() {
    assert!(parser::query("list").is_none());
}

#[test]
fn vec_to_u64_joins_digits() {
    assert_eq!(parser::vec_to_u64(&vec!['1', '2', '3']), Some(123));
    assert_eq!(parser::vec_to_u64(&vec!['0']), Some(0));
}

#[test]
fn vec_to_u64_rejects_overflow() {
    let ds: Vec<char> = "99999999999999999999".chars().collect();
    assert_eq!(parser::vec_to_u64(&ds), None);
}

#[test]
fn character_classes() {
    assert!(parser::is_lowecase_or_dash('a'));
    assert!(parser::is_lowecase_or_dash('-'));
    assert!(!parser::is_lowecase_or_dash(' '));
    assert!(!parser::is_lowecase_or_dash('A'));
    assert!(parser::is_lowecase_or_dash_or_whitespace(' '));
    assert!(parser::is_lowecase_or_dash_or_whitespace('\t'));
    assert!(!parser::is_lowecase_or_dash_or_whitespace('#'));
}

#[test]
fn accepts_tab_separators() {
    let q = parser::query("add\t\"a\tb\"\t#x");
    match q {
        Some(Query::Add(d, ts)) => {
            assert_eq!(d.value(), "a\tb");
            assert_eq!(ts.len(), 1);
            assert_eq!(ts[0].value(), "x");
        }
        _ => panic!("expected an add query"),
    }
}

#[test]
fn accepts_repeated_separators() {
    let q = parser::query("search  alpha   #beta");
    match q {
        Some(Query::Search(sp)) => {
            assert_eq!(sp.words.len(), 1);
            assert_eq!(sp.tags.len(), 1);
        }
        _ => panic!("expected a search query"),
    }
}

#[test]
fn rejects_token_glued_to_tag() {
    assert!(parser::query("search ab#c").is_none());
}
