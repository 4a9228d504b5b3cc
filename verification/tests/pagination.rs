//! Pagination: consecutive pages tile the ranked order with no duplicate
//! and no gap.

use stract::index::Index;
use stract::query::{SearchQuery, NUM_RESULTS_PER_PAGE};
use stract::searcher::LocalSearcher;
use stract::webpage::{Html, Webpage};

#[test]
fn offset_page() {
    const NUM_PAGES: usize = 10;
    const NUM_WEBSITES: usize = NUM_PAGES * NUM_RESULTS_PER_PAGE;

    let mut index = Index::temporary().expect("Unable to open index");

    for i in 0..NUM_WEBSITES {
        index
            .insert(Webpage {
                html: Html::parse(
                    r#"
            <html>
                <head>
                    <title>Example website</title>
                </head>
                <body>
                    test
                </body>
            </html>
            "#,
                    &format!("https://www.{i}.com"),
                ),
                backlinks: vec![],
                host_centrality: ((NUM_WEBSITES - i) as u64) * 1_000_000_000,
                fetch_time_ms: 500,
                page_centrality: 0,
                pre_computed_score: 0,
                primary_image: None,
            })
            .expect("failed to insert webpage");
    }

    index.commit().unwrap();

    let searcher = LocalSearcher::new(index, None, None);

    for p in 0..NUM_PAGES {
        let urls: Vec<_> = searcher
            .search(&SearchQuery {
                query: "test".to_string(),
                page: p,
                ..Default::default()
            })
            .unwrap()
            .into_websites()
            .unwrap()
            .webpages
            .documents
            .into_iter()
            .map(|page| page.url)
            .collect();

        assert!(!urls.is_empty());

        for (i, url) in urls.into_iter().enumerate() {
            assert_eq!(
                url,
                format!("https://www.{}.com", i + (p * NUM_RESULTS_PER_PAGE))
            )
        }
    }
}
