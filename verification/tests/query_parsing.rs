//! The term lexer and query builder: display projection of simple terms,
//! whitespace handling, lenient parsing of special characters, the empty
//! query, and the occurrence cap on the retrieval expression.

use stract::query::{Matcher, Query, SearchError, SearchQuery};
use stract::searcher::LocalSearcher;
use stract::index::Index;

fn parse(query: &str) -> Query {
    Query::parse(&SearchQuery {
        query: query.to_string(),
        ..Default::default()
    })
    .expect("Failed to parse query")
}

#[test]
fn simple_parse() {
    let query = parse(
        "this is a simple query the the the the the the the the the the the the the",
    );

    assert_eq!(
        query.simple_terms().clone(),
        vec![
            "this".to_string(),
            "is".to_string(),
            "a".to_string(),
            "simple".to_string(),
            "query".to_string(),
            "the".to_string(),
            "the".to_string(),
            "the".to_string(),
            "the".to_string(),
            "the".to_string(),
            "the".to_string(),
            "the".to_string(),
            "the".to_string(),
            "the".to_string(),
            "the".to_string(),
            "the".to_string(),
            "the".to_string(),
            "the".to_string(),
        ]
    );
}

#[test]
fn cap_retrieval_clauses() {
    // Thirteen occurrences typed, at most the cap's worth of clauses
    // compiled.
    let query = parse(
        "this is a simple query the the the the the the the the the the the the the",
    );
    let the_clauses = query
        .expression
        .iter()
        .filter(|c| matches!(&c.matcher, Matcher::Token(t) if t == "the"))
        .count();
    assert_eq!(the_clauses, 10);
}

#[test]
fn parse_trailing_leading_whitespace() {
    let query = parse("   this is a simple query   ");

    assert_eq!(
        query.simple_terms().clone(),
        vec![
            "this".to_string(),
            "is".to_string(),
            "a".to_string(),
            "simple".to_string(),
            "query".to_string(),
        ]
    );
}

#[test]
fn parse_weird_characters() {
    let terms = parse("123").simple_terms().clone();
    assert_eq!(terms, vec!["123".to_string()]);

    let terms = parse("123 33").simple_terms().clone();
    assert_eq!(terms, vec!["123".to_string(), "33".to_string()]);

    let terms = parse("term! term# $").simple_terms().clone();
    assert_eq!(
        terms,
        vec!["term!".to_string(), "term#".to_string(), "$".to_string()]
    );
}

#[test]
fn empty_query() {
    let query = parse("");
    assert!(query.is_empty())
}

#[test]
fn query_term_only_special_char() {
    let query = parse("&");
    assert!(!query.is_empty());
}

#[test]
fn whitespace_query_rejected() {
    let mut index = Index::temporary().expect("Unable to open index");
    index.commit().expect("failed to commit index");
    let searcher = LocalSearcher::new(index, None, None);
    let result = searcher.search(&SearchQuery {
        query: "   \t  ".to_string(),
        ..Default::default()
    });
    assert!(matches!(result, Err(SearchError::EmptyQuery)));
}
