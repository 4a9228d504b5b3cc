//! Ranking behaviour: centrality, navigational boosts, freshness, tracker
//! penalties, backlink text, custom signal coefficients and term
//! proximity. Centrality values are fixed point, scaled by
//! `CENTRALITY_SCALING` (`1.0` is `1_000_000_000`).

use stract::index::Index;
use stract::query::SearchQuery;
use stract::searcher::LocalSearcher;
use stract::webpage::{Html, Link, Webpage};

const CONTENT: &str = "this is the best example website ever this is the best example website ever this is the best example website ever this is the best example website ever this is the best example website ever this is the best example website ever";

fn page(html: &str, url: &str, host_centrality: u64, page_centrality: u64) -> Webpage {
    Webpage {
        html: Html::parse(html, url),
        backlinks: vec![],
        host_centrality,
        page_centrality,
        fetch_time_ms: 500,
        pre_computed_score: 0,
        primary_image: None,
    }
}

fn plain_query(q: &str) -> SearchQuery {
    SearchQuery {
        query: q.to_string(),
        ..Default::default()
    }
}

#[test]
fn host_centrality_ranking() {
    let mut index = Index::temporary().expect("Unable to open index");

    index
        .insert(page(
            &format!(
                r#"
                    <html>
                        <head>
                            <title>Website A</title>
                        </head>
                        <body>
                            {CONTENT}
                            example example example
                        </body>
                    </html>
                "#
            ),
            "https://www.a.com",
            0,
            0,
        ))
        .expect("failed to insert webpage");
    index
        .insert(page(
            &format!(
                r#"
                    <html>
                        <head>
                            <title>Website B</title>
                        </head>
                        <body>
                            {CONTENT}
                        </body>
                    </html>
                "#
            ),
            "https://www.b.com",
            5_000_000_000,
            0,
        ))
        .expect("failed to insert webpage");

    index.commit().expect("failed to commit index");
    let searcher = LocalSearcher::new(index, None, None);
    let result = searcher
        .search(&plain_query("example"))
        .expect("Search failed")
        .into_websites()
        .unwrap();
    assert_eq!(result.webpages.documents.len(), 2);
    assert_eq!(result.webpages.documents[0].url, "https://www.b.com");
    assert_eq!(result.webpages.documents[1].url, "https://www.a.com");
}

#[test]
fn page_centrality_ranking() {
    let mut index = Index::temporary().expect("Unable to open index");

    index
        .insert(page(
            &format!(
                r#"
                    <html>
                        <head>
                            <title>Website A</title>
                        </head>
                        <body>
                            {CONTENT}
                            example example example
                        </body>
                    </html>
                "#
            ),
            "https://www.a.com",
            0,
            0,
        ))
        .expect("failed to insert webpage");
    index
        .insert(page(
            &format!(
                r#"
                    <html>
                        <head>
                            <title>Website B</title>
                        </head>
                        <body>
                            {CONTENT}
                        </body>
                    </html>
                "#
            ),
            "https://www.b.com",
            0,
            5_000_000_000,
        ))
        .expect("failed to insert webpage");

    index.commit().expect("failed to commit index");
    let searcher = LocalSearcher::new(index, None, None);
    let result = searcher
        .search(&plain_query("example"))
        .expect("Search failed")
        .into_websites()
        .unwrap();
    assert_eq!(result.webpages.documents.len(), 2);
    assert_eq!(result.webpages.documents[0].url, "https://www.b.com");
    assert_eq!(result.webpages.documents[1].url, "https://www.a.com");
}

#[test]
fn navigational_search() {
    let mut index = Index::temporary().expect("Unable to open index");

    index
        .insert(page(
            &format!(
                r#"
                    <html>
                        <head>
                            <title>DR Homepage</title>
                        </head>
                        <body>
                            {CONTENT}
                        </body>
                    </html>
                "#
            ),
            "https://www.dr.dk",
            0,
            0,
        ))
        .expect("failed to insert webpage");
    index
        .insert(page(
            &format!(
                r#"
                    <html>
                        <head>
                            <title>Subsite dr</title>
                        </head>
                        <body>
                            {CONTENT}
                        </body>
                    </html>
                "#
            ),
            "https://www.dr.dk/whatever",
            0,
            0,
        ))
        .expect("failed to insert webpage");
    index
        .insert(page(
            &format!(
                r#"
                    <html>
                        <head>
                            <title>Website B</title>
                        </head>
                        dr and some other text {CONTENT} dk
                    </html>
                "#
            ),
            "https://www.b.com",
            3_000_000,
            0,
        ))
        .expect("failed to insert webpage");

    index.commit().expect("failed to commit index");
    let searcher = LocalSearcher::new(index, None, None);
    let result = searcher
        .search(&plain_query("dr dk"))
        .expect("Search failed")
        .into_websites()
        .unwrap();

    assert_eq!(result.webpages.documents.len(), 3);
    assert_eq!(result.webpages.documents[0].url, "https://www.dr.dk");
}

#[test]
fn freshness_ranking() {
    let mut index = Index::temporary().expect("Unable to open index");

    index
        .insert(page(
            &format!(
                r#"
                    <html>
                        <head>
                            <title>Title</title>
                            <meta property="og:updated_time" content="1999-06-22T19:37:34+00:00" />
                        </head>
                        <body>
                            {CONTENT}
                        </body>
                    </html>
                "#
            ),
            "https://www.old.com",
            92_000_000,
            0,
        ))
        .expect("failed to insert webpage");
    index
        .insert(page(
            &format!(
                r#"
                    <html>
                        <head>
                            <title>Title</title>
                            <meta property="og:updated_time" content="2022-06-22T19:37:34+00:00" />
                        </head>
                        <body>
                            {CONTENT}
                        </body>
                    </html>
                "#
            ),
            "https://www.new.com",
            90_000_000,
            0,
        ))
        .expect("failed to insert webpage");

    index.commit().expect("failed to commit index");
    let searcher = LocalSearcher::new(index, None, None);
    let result = searcher
        .search(&plain_query("title"))
        .expect("Search failed")
        .into_websites()
        .unwrap();

    assert_eq!(result.webpages.documents[0].url, "https://www.new.com");
}

#[test]
fn derank_trackers() {
    let mut index = Index::temporary().expect("Unable to open index");

    index
        .insert(page(
            r#"
                    <html>
                        <head>
                            <title>Test site</title>
                        </head>
                        <body>
                            test
                        </body>
                    </html>
                "#,
            "https://www.first.com",
            0,
            0,
        ))
        .expect("failed to insert webpage");
    index
        .insert(page(r#"
                    <html>
                        <head>
                            <script>
                                !function(){var analytics=window.analytics=window.analytics||[];if(!analytics.initialize)if(analytics.invoked)window.console&&console.error&&console.error("Segment snippet included twice.");else{analytics.invoked=!0;analytics.methods=["trackSubmit","trackClick","trackLink","trackForm","pageview","identify","reset","group","track","ready","alias","debug","page","once","off","on","addSourceMiddleware","addIntegrationMiddleware","setAnonymousId","addDestinationMiddleware"];analytics.factory=function(e){return function(){var t=Array.prototype.slice.call(arguments);t.unshift(e);analytics.push(t);return analytics}};for(var e=0;e<analytics.methods.length;e++){var key=analytics.methods[e];analytics[key]=analytics.factory(key)}analytics.load=function(key,e){var t=document.createElement("script");t.type="text/javascript";t.async=!0;t.src="https://cdn.segment.com/analytics.js/v1/" + key + "/analytics.min.js";var n=document.getElementsByTagName("script")[0];n.parentNode.insertBefore(t,n);analytics._loadOptions=e};analytics._writeKey="";analytics.SNIPPET_VERSION="4.13.2";
                                analytics.load("");
                                analytics.page();
                                }}();
                            </script>
                            <script>
                                (function(h,o,t,j,a,r){
                                    h.hj=h.hj||function(){(h.hj.q=h.hj.q||[]).push(arguments)};
                                    a.appendChild(r);
                                })(window,document,'https://static.hotjar.com/c/hotjar-','.js?sv=');
                            </script>
                            <script src="https://thirdparty.com/js"></script>
                            <link href='//securepubads.g.doubleclick.net' rel='preconnect'>
                            <title>Test site</title>
                        </head>
                        <body>
                            test
                        </body>
                    </html>
                "#,
            "https://www.second.com",
            3_000_000,
            0,
        ))
        .expect("failed to insert webpage");

    index.commit().expect("failed to commit index");
    let searcher = LocalSearcher::new(index, None, None);
    let result = searcher
        .search(&plain_query("test"))
        .expect("Search failed")
        .into_websites()
        .unwrap();

    assert_eq!(result.webpages.documents.len(), 2);
    assert_eq!(result.webpages.documents[0].url, "https://www.first.com");
}

#[test]
fn backlink_text() {
    let mut index = Index::temporary().expect("Unable to open index");

    index
        .insert(Webpage {
            html: Html::parse(
                r#"
                    <html>
                        <head>
                            <title>Test site</title>
                        </head>
                        <body>
                            test
                        </body>
                    </html>
                "#,
                "https://www.first.com",
            ),
            backlinks: vec![Link {
                source: "https://www.second.com".to_string(),
                destination: "https://www.first.com".to_string(),
                text: "test this is the best test site".to_string(),
            }],
            host_centrality: 0,
            fetch_time_ms: 500,
            page_centrality: 0,
            pre_computed_score: 0,
            primary_image: None,
        })
        .expect("failed to insert webpage");
    index
        .insert(page(
            r#"
                    <html>
                        <head>
                            <title>Second test site</title>
                        </head>
                        <body>
                            test test test test test test test
                        </body>
                    </html>
                "#,
            "https://www.second.com",
            30_000,
            0,
        ))
        .expect("failed to insert webpage");

    index.commit().expect("failed to commit index");
    let searcher = LocalSearcher::new(index, None, None);
    let result = searcher
        .search(&plain_query("test"))
        .expect("Search failed")
        .into_websites()
        .unwrap();

    assert_eq!(result.webpages.documents.len(), 2);
    assert_eq!(result.webpages.documents[0].url, "https://www.first.com");
}

#[test]
fn custom_signal_aggregation() {
    let mut index = Index::temporary().expect("Unable to open index");

    index
        .insert(page(
            r#"
            <html>
                <head>
                    <title>Test website</title>
                </head>
                <body>
                    example
                </body>
            </html>
            "#,
            "https://www.body.com",
            1_000_000_000,
            0,
        ))
        .expect("failed to insert webpage");

    index
        .insert(page(
            r#"
            <html>
                <head>
                    <title>Example website</title>
                </head>
                <body>
                    test
                </body>
            </html>
            "#,
            "https://www.title.com",
            1_000_000_000,
            0,
        ))
        .expect("failed to insert webpage");

    index
        .insert(page(
            r#"
            <html>
                <head>
                    <title>Test website</title>
                    <meta property="og:description" content="example" />
                </head>
                <body>
                    test
                </body>
            </html>
            "#,
            "https://www.centrality.com",
            1_020_000_000,
            0,
        ))
        .expect("failed to insert webpage");

    index.commit().unwrap();

    let searcher = LocalSearcher::new(index, None, None);

    let res = searcher
        .search(&SearchQuery {
            query: "example".to_string(),
            optic_program: Some(
                r#"
                        @field_title = 20000000
                        @host_centrality = 0
                    "#
                .to_string(),
            ),
            ..Default::default()
        })
        .unwrap()
        .into_websites()
        .unwrap();

    assert_eq!(res.webpages.num_docs, 3);
    assert_eq!(&res.webpages.documents[0].url, "https://www.title.com");

    let res = searcher
        .search(&SearchQuery {
            query: "example".to_string(),
            optic_program: Some(
                r#"
                        @field_all_body = 20000000
                        @host_centrality = 0
                    "#
                .to_string(),
            ),
            ..Default::default()
        })
        .unwrap()
        .into_websites()
        .unwrap();

    assert_eq!(res.webpages.num_docs, 3);
    assert_eq!(&res.webpages.documents[0].url, "https://www.body.com");

    let res = searcher
        .search(&SearchQuery {
            query: "example".to_string(),
            optic_program: Some(
                r#"
                        @host_centrality = 2000000
                    "#
                .to_string(),
            ),
            ..Default::default()
        })
        .unwrap()
        .into_websites()
        .unwrap();

    assert_eq!(res.webpages.num_docs, 3);
    assert_eq!(&res.webpages.documents[0].url, "https://www.centrality.com");
}

#[test]
fn term_proximity_ranking() {
    let mut index = Index::temporary().expect("Unable to open index");
    index
        .insert(page(
            &format!(
                r#"
                        <html>
                            <head>
                                <title>Test website</title>
                            </head>
                            <body>
                                {CONTENT} termA termB d d d d d d d d d
                            </body>
                        </html>
                    "#
            ),
            "https://www.first.com",
            1_000_000_000,
            0,
        ))
        .expect("failed to insert webpage");
    index
        .insert(page(
            &format!(
                r#"
                        <html>
                            <head>
                                <title>Test website</title>
                            </head>
                            <body>
                                {CONTENT} termA d d d d d d d d d termB
                            </body>
                        </html>
                    "#
            ),
            "https://www.third.com",
            1_000_000_000,
            0,
        ))
        .expect("failed to insert webpage");
    index
        .insert(page(
            &format!(
                r#"
                        <html>
                            <head>
                                <title>Test website</title>
                            </head>
                            <body>
                                {CONTENT} termA d d d d termB d d d d d
                            </body>
                        </html>
                    "#
            ),
            "https://www.second.com",
            1_000_000_000,
            0,
        ))
        .expect("failed to insert webpage");
    index.commit().expect("failed to commit index");
    let searcher = LocalSearcher::new(index, None, None);

    let result = searcher
        .search(&plain_query("termA termB"))
        .expect("Search failed")
        .into_websites()
        .unwrap()
        .webpages;

    assert_eq!(result.num_docs, 3);
    assert_eq!(result.documents.len(), 3);
    assert_eq!(result.documents[0].url, "https://www.first.com");
    assert_eq!(result.documents[1].url, "https://www.second.com");
    assert_eq!(result.documents[2].url, "https://www.third.com");
}

#[test]
fn fetch_time_ranking() {
    let mut index = Index::temporary().expect("Unable to open index");

    index
        .insert(Webpage {
            html: Html::parse(
                &format!(
                    r#"
                        <html>
                            <head>
                                <title>Test website</title>
                            </head>
                            <body>
                                {CONTENT}
                            </body>
                        </html>
                    "#
                ),
                "https://www.first.com",
            ),
            backlinks: vec![],
            host_centrality: 1_000_000_000,
            fetch_time_ms: 0,
            pre_computed_score: 0,
            page_centrality: 0,
            primary_image: None,
        })
        .expect("failed to insert webpage");
    index
        .insert(Webpage {
            html: Html::parse(
                &format!(
                    r#"
                        <html>
                            <head>
                                <title>Test website</title>
                            </head>
                            <body>
                                {CONTENT}
                            </body>
                        </html>
                    "#
                ),
                "https://www.second.com",
            ),
            backlinks: vec![],
            host_centrality: 1_000_000_000,
            fetch_time_ms: 5000,
            page_centrality: 0,
            pre_computed_score: 0,
            primary_image: None,
        })
        .expect("failed to insert webpage");
    index.commit().expect("failed to commit index");
    let searcher = LocalSearcher::new(index, None, None);

    let result = searcher
        .search(&plain_query("test"))
        .expect("Search failed")
        .into_websites()
        .unwrap()
        .webpages;

    assert_eq!(result.num_docs, 2);
    assert_eq!(result.documents.len(), 2);
    assert_eq!(result.documents[0].url, "https://www.first.com");
    assert_eq!(result.documents[1].url, "https://www.second.com");
}

#[test]
fn host_centrality_override() {
    // With the host-centrality coefficient zeroed by the policy, the order
    // of two documents depends on the text signals alone.
    let mut index = Index::temporary().expect("Unable to open index");

    index
        .insert(page(
            &format!(
                r#"
                    <html>
                        <head>
                            <title>Website A</title>
                        </head>
                        <body>
                            {CONTENT}
                            example example example
                        </body>
                    </html>
                "#
            ),
            "https://www.a.com",
            0,
            0,
        ))
        .expect("failed to insert webpage");
    index
        .insert(page(
            &format!(
                r#"
                    <html>
                        <head>
                            <title>Website B</title>
                        </head>
                        <body>
                            {CONTENT}
                        </body>
                    </html>
                "#
            ),
            "https://www.b.com",
            5_000_000_000,
            0,
        ))
        .expect("failed to insert webpage");

    index.commit().expect("failed to commit index");
    let searcher = LocalSearcher::new(index, None, None);

    // Centrality alone reverses the text order.
    let result = searcher
        .search(&plain_query("example"))
        .expect("Search failed")
        .into_websites()
        .unwrap();
    assert_eq!(result.webpages.documents[0].url, "https://www.b.com");

    // With the coefficient at zero, the better-matching page wins.
    let result = searcher
        .search(&SearchQuery {
            query: "example".to_string(),
            optic_program: Some("@host_centrality = 0".to_string()),
            ..Default::default()
        })
        .expect("Search failed")
        .into_websites()
        .unwrap();
    assert_eq!(result.webpages.documents[0].url, "https://www.a.com");
}
