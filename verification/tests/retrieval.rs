//! Boolean retrieval over the in-memory index: negation, site and domain
//! restrictions, title and URL restrictions, and phrases.

use stract::index::Index;
use stract::query::SearchQuery;
use stract::searcher::LocalSearcher;
use stract::webpage::Webpage;

/// Deterministic filler words, standing in for random page padding.
fn rand_words(n: usize) -> String {
    let mut x: u64 = 0x243F6A8885A308D3;
    let mut s = String::new();
    for _ in 0..n {
        x = x.wrapping_mul(6364136223846793005).wrapping_add(1442695040888963407);
        s.push_str(&format!("w{:x} ", x >> 40));
    }
    s
}

#[test]
fn not_query() {
    let mut index = Index::temporary().expect("Unable to open index");
    let query = SearchQuery {
        query: "test -website".to_string(),
        ..Default::default()
    };

    index
        .insert(Webpage::new(
            r#"
                        <html>
                            <head>
                                <title>Test website</title>
                            </head>
                            <body>
                                This is a test website
                            </body>
                        </html>
                    "#,
            "https://www.first.com",
        ))
        .expect("failed to insert webpage");
    index
        .insert(Webpage::new(
            r#"
                        <html>
                            <head>
                                <title>Test test</title>
                            </head>
                            <body>
                                This test page does not contain the forbidden word
                            </body>
                        </html>
                    "#,
            "https://www.second.com",
        ))
        .expect("failed to insert webpage");
    index.commit().expect("failed to commit index");
    let searcher = LocalSearcher::new(index, None, None);

    let result = searcher
        .search(&query)
        .expect("Search failed")
        .into_websites()
        .unwrap();
    assert_eq!(result.webpages.num_docs, 1);
    assert_eq!(result.webpages.documents.len(), 1);
    assert_eq!(result.webpages.documents[0].url, "https://www.second.com");
}

#[test]
fn site_query() {
    let mut index = Index::temporary().expect("Unable to open index");

    index
        .insert(Webpage::new(
            r#"
                        <html>
                            <head>
                                <title>Test website</title>
                            </head>
                            <body>
                                This is a test website
                            </body>
                        </html>
                    "#,
            "https://www.first.com",
        ))
        .expect("failed to insert webpage");
    index
        .insert(Webpage::new(
            r#"
                        <html>
                            <head>
                                <title>Test test</title>
                            </head>
                            <body>
                                This test page does not contain the forbidden word
                            </body>
                        </html>
                    "#,
            "https://www.second.com",
        ))
        .expect("failed to insert webpage");
    index.commit().expect("failed to commit index");
    let searcher = LocalSearcher::new(index, None, None);

    let query = SearchQuery {
        query: "test site:first.com".to_string(),
        ..Default::default()
    };
    let result = searcher
        .search(&query)
        .expect("Search failed")
        .into_websites()
        .unwrap();
    assert_eq!(result.webpages.num_docs, 1);
    assert_eq!(result.webpages.documents.len(), 1);
    assert_eq!(result.webpages.documents[0].url, "https://www.first.com");

    let query = SearchQuery {
        query: "test site:www.first.com".to_string(),
        ..Default::default()
    };
    let result = searcher
        .search(&query)
        .expect("Search failed")
        .into_websites()
        .unwrap();
    assert_eq!(result.webpages.num_docs, 1);
    assert_eq!(result.webpages.documents.len(), 1);
    assert_eq!(result.webpages.documents[0].url, "https://www.first.com");

    let query = SearchQuery {
        query: "test -site:first.com".to_string(),
        ..Default::default()
    };
    let result = searcher
        .search(&query)
        .expect("Search failed")
        .into_websites()
        .unwrap();
    assert_eq!(result.webpages.num_docs, 1);
    assert_eq!(result.webpages.documents.len(), 1);
    assert_eq!(result.webpages.documents[0].url, "https://www.second.com");
}

#[test]
fn title_query() {
    let mut index = Index::temporary().expect("Unable to open index");

    index
        .insert(Webpage::new(
            r#"
                        <html>
                            <head>
                                <title>Test website</title>
                            </head>
                            <body>
                                This is a test website
                            </body>
                        </html>
                    "#,
            "https://www.first.com",
        ))
        .expect("failed to insert webpage");
    index
        .insert(Webpage::new(
            r#"
                        <html>
                            <head>
                                <title>Test test</title>
                            </head>
                            <body>
                                This is a test website
                            </body>
                        </html>
                    "#,
            "https://www.second.com",
        ))
        .expect("failed to insert webpage");
    index.commit().expect("failed to commit index");
    let searcher = LocalSearcher::new(index, None, None);

    let query = SearchQuery {
        query: "intitle:website".to_string(),
        ..Default::default()
    };
    let result = searcher
        .search(&query)
        .expect("Search failed")
        .into_websites()
        .unwrap();
    assert_eq!(result.webpages.num_docs, 1);
    assert_eq!(result.webpages.documents.len(), 1);
    assert_eq!(result.webpages.documents[0].url, "https://www.first.com");
}

#[test]
fn url_query() {
    let mut index = Index::temporary().expect("Unable to open index");

    index
        .insert(Webpage::new(
            r#"
                        <html>
                            <head>
                                <title>Test website</title>
                            </head>
                            <body>
                                This is a test website
                            </body>
                        </html>
                    "#,
            "https://www.first.com/forum",
        ))
        .expect("failed to insert webpage");
    index
        .insert(Webpage::new(
            r#"
                        <html>
                            <head>
                                <title>Test test</title>
                            </head>
                            <body>
                                This is a test website
                            </body>
                        </html>
                    "#,
            "https://www.second.com",
        ))
        .expect("failed to insert webpage");
    index.commit().expect("failed to commit index");
    let searcher = LocalSearcher::new(index, None, None);

    let query = SearchQuery {
        query: "test inurl:forum".to_string(),
        ..Default::default()
    };
    let result = searcher
        .search(&query)
        .expect("Search failed")
        .into_websites()
        .unwrap();
    assert_eq!(result.webpages.num_docs, 1);
    assert_eq!(result.webpages.documents.len(), 1);
    assert_eq!(result.webpages.documents[0].url, "https://www.first.com/forum");
}

#[test]
fn site_query_split_domain() {
    let mut index = Index::temporary().expect("Unable to open index");

    index
        .insert(Webpage::new(
            &format!(
                r#"
                        <html>
                            <head>
                                <title>Test website</title>
                            </head>
                            <body>
                                This is a test website {}
                            </body>
                        </html>
                    "#,
                rand_words(1000)
            ),
            "https://www.the-first.com",
        ))
        .expect("failed to insert webpage");
    index
        .insert(Webpage::new(
            &format!(
                r#"
                        <html>
                            <head>
                                <title>Test test</title>
                            </head>
                            <body>
                                This test page does not contain the forbidden word {}
                            </body>
                        </html>
                    "#,
                rand_words(1000)
            ),
            "https://www.second.com",
        ))
        .expect("failed to insert webpage");
    index.commit().expect("failed to commit index");
    let searcher = LocalSearcher::new(index, None, None);

    let query = SearchQuery {
        query: "test site:first.com".to_string(),
        ..Default::default()
    };
    let result = searcher
        .search(&query)
        .expect("Search failed")
        .into_websites()
        .unwrap();
    assert_eq!(result.webpages.num_docs, 0);
    assert_eq!(result.webpages.documents.len(), 0);

    let query = SearchQuery {
        query: "test site:the-first.com".to_string(),
        ..Default::default()
    };
    let result = searcher
        .search(&query)
        .expect("Search failed")
        .into_websites()
        .unwrap();
    assert_eq!(result.webpages.num_docs, 1);
    assert_eq!(result.webpages.documents.len(), 1);
    assert_eq!(result.webpages.documents[0].url, "https://www.the-first.com");

    let query = SearchQuery {
        query: "test site:www.the-first.com".to_string(),
        ..Default::default()
    };
    let result = searcher
        .search(&query)
        .expect("Search failed")
        .into_websites()
        .unwrap();
    assert_eq!(result.webpages.num_docs, 1);
    assert_eq!(result.webpages.documents.len(), 1);
    assert_eq!(result.webpages.documents[0].url, "https://www.the-first.com");
}

#[test]
fn phrase_query() {
    let mut index = Index::temporary().expect("Unable to open index");

    index
        .insert(Webpage::new(
            &format!(
                r#"
                        <html>
                            <head>
                                <title>Test website</title>
                            </head>
                            <body>
                                This is a test website {}
                            </body>
                        </html>
                    "#,
                rand_words(1000)
            ),
            "https://www.first.com",
        ))
        .expect("failed to insert webpage");
    index
        .insert(Webpage::new(
            &format!(
                r#"
                        <html>
                            <head>
                                <title>Test test</title>
                            </head>
                            <body>
                                This is a bad test website {}
                            </body>
                        </html>
                    "#,
                rand_words(1000)
            ),
            "https://www.second.com",
        ))
        .expect("failed to insert webpage");
    index.commit().expect("failed to commit index");
    let searcher = LocalSearcher::new(index, None, None);

    let query = SearchQuery {
        query: "\"Test website\"".to_string(),
        ..Default::default()
    };
    let result = searcher
        .search(&query)
        .expect("Search failed")
        .into_websites()
        .unwrap();
    assert_eq!(result.webpages.num_docs, 1);
    assert_eq!(result.webpages.documents.len(), 1);
    assert_eq!(result.webpages.documents[0].url, "https://www.first.com");

    let query = SearchQuery {
        query: "\"Test website\" site:www.second.com".to_string(),
        ..Default::default()
    };
    let result = searcher
        .search(&query)
        .expect("Search failed")
        .into_websites()
        .unwrap();
    assert_eq!(result.webpages.num_docs, 0);
    assert_eq!(result.webpages.documents.len(), 0);
}
