//! The ranking-policy compiler, signal names, the field catalog and small
//! helpers.

use stract::index::Index;
use stract::optic::{ExpectedToken, Optic, Ranking, SiteRankings};
use stract::query::SearchQuery;
use stract::schema::{Field, TextField};
use stract::searcher::LocalSearcher;
use stract::signal::Signal;
use stract::webpage::{Html, Region, Webpage};

#[test]
fn policy_parses_coefficients_and_hosts() {
    let optic = Optic::parse(
        "# boost titles\n@field_title = 2.5\nlike a.com\ndislike b.com\nblock c.com\n",
    )
    .expect("policy should parse");
    assert_eq!(optic.rankings.len(), 1);
    assert_eq!(optic.rankings[0].target, "field_title");
    assert_eq!(optic.rankings[0].value, 2_500_000);
    assert_eq!(optic.site_rankings.liked, vec!["a.com".to_string()]);
    assert_eq!(optic.site_rankings.disliked, vec!["b.com".to_string()]);
    assert_eq!(optic.site_rankings.blocked, vec!["c.com".to_string()]);
}

#[test]
fn policy_error_position() {
    let err = Optic::parse("@field_title = 1\nnonsense here\n").unwrap_err();
    assert_eq!(err.line, 2);
    assert_eq!(err.expected, ExpectedToken::Directive);

    let err = Optic::parse("@field_title\n").unwrap_err();
    assert_eq!(err.line, 1);
    assert_eq!(err.expected, ExpectedToken::Equals);

    let err = Optic::parse("@field_title = x\n").unwrap_err();
    assert_eq!(err.expected, ExpectedToken::Number);

    let err = Optic::parse("like\n").unwrap_err();
    assert_eq!(err.expected, ExpectedToken::Domain);
}

#[test]
fn policy_merge_last_writer_wins() {
    let a = Optic::parse("like a.com\nblock b.com\n").unwrap();
    let b = Optic::parse("block a.com\nlike b.com\n").unwrap();
    let merged = a.try_merge(b);
    // The second policy's classification supersedes the first's.
    assert!(merged.site_rankings.blocked.contains(&"a.com".to_string()));
    assert!(merged.site_rankings.liked.contains(&"b.com".to_string()));
    assert!(!merged.site_rankings.liked.contains(&"a.com".to_string()));
    assert!(!merged.site_rankings.blocked.contains(&"b.com".to_string()));
}

#[test]
fn blocked_hosts_are_excluded() {
    let mut index = Index::temporary().expect("Unable to open index");
    index
        .insert(Webpage::new(
            "<html><head><title>Test a</title></head><body>test</body></html>",
            "https://www.a.com",
        ))
        .expect("failed to insert webpage");
    index
        .insert(Webpage::new(
            "<html><head><title>Test b</title></head><body>test</body></html>",
            "https://www.b.com",
        ))
        .expect("failed to insert webpage");
    index.commit().expect("failed to commit index");
    let searcher = LocalSearcher::new(index, None, None);

    let result = searcher
        .search(&SearchQuery {
            query: "test".to_string(),
            site_rankings: Some(SiteRankings {
                liked: vec![],
                disliked: vec![],
                blocked: vec!["a.com".to_string()],
            }),
            ..Default::default()
        })
        .expect("Search failed")
        .into_websites()
        .unwrap();
    assert_eq!(result.webpages.num_docs, 1);
    assert_eq!(result.webpages.documents[0].url, "https://www.b.com");
}

#[test]
fn signal_names_resolve() {
    assert_eq!(Signal::from_name("host_centrality"), Some(Signal::HostCentrality));
    assert_eq!(Signal::from_name("field_title"), Some(Signal::FieldTitle));
    assert_eq!(Signal::from_name("field_all_body"), Some(Signal::FieldAllBody));
    assert_eq!(Signal::from_name("no_such_signal"), None);
}

#[test]
fn field_catalog() {
    let title = Field::Text(TextField::Title);
    assert_eq!(title.name(), "title");
    assert_eq!(Field::from_name("title".to_string()), Some(title));
    assert_eq!(Field::from_name("no_such_field".to_string()), None);
    assert!(title.is_searchable());
    assert!(!title.is_fast());
    assert_eq!(title.boost(), Some(1000));
}

#[test]
fn region_ids_roundtrip() {
    for id in 0..=5u64 {
        let region = Region::from_id(id).unwrap();
        assert_eq!(region.id(), id);
    }
    assert!(Region::from_id(17).is_none());
}

#[test]
fn tracker_detection() {
    let clean = Html::parse(
        "<html><head><title>t</title></head><body>hello</body></html>",
        "https://www.clean.com",
    );
    assert_eq!(clean.num_trackers, 0);

    let heavy = Html::parse(
        "<html><head><script src=\"https://www.googletagmanager.com/gtag.js\"></script><title>t</title></head><body>hello</body></html>",
        "https://www.heavy.com",
    );
    assert_eq!(heavy.num_trackers, 1);
}

#[test]
fn url_decomposition() {
    let html = Html::parse(
        "<html><head><title>t</title></head><body>x</body></html>",
        "https://www.sub.example.com/path/page?x=1",
    );
    assert_eq!(html.site, "www.sub.example.com");
    assert_eq!(html.domain, "example.com");
    assert!(!html.is_homepage);

    let home = Html::parse("<html></html>", "https://www.example.com/");
    assert!(home.is_homepage);
}

#[test]
fn liked_ranking_variant() {
    // The three host classifications are distinct.
    assert_ne!(Ranking::Liked, Ranking::Disliked);
    assert_ne!(Ranking::Disliked, Ranking::Blocked);
}

#[test]
fn liked_and_disliked_hosts_reorder() {
    let mut index = Index::temporary().expect("Unable to open index");
    index
        .insert(Webpage::new(
            "<html><head><title>Test a</title></head><body>test</body></html>",
            "https://www.a.com",
        ))
        .expect("failed to insert webpage");
    index
        .insert(Webpage::new(
            "<html><head><title>Test b</title></head><body>test</body></html>",
            "https://www.b.com",
        ))
        .expect("failed to insert webpage");
    index.commit().expect("failed to commit index");
    let searcher = LocalSearcher::new(index, None, None);

    // Liking the later page lifts it to the front.
    let result = searcher
        .search(&SearchQuery {
            query: "test".to_string(),
            optic_program: Some("like b.com".to_string()),
            ..Default::default()
        })
        .expect("Search failed")
        .into_websites()
        .unwrap();
    assert_eq!(result.webpages.documents[0].url, "https://www.b.com");

    // Disliking the first page demotes it.
    let result = searcher
        .search(&SearchQuery {
            query: "test".to_string(),
            optic_program: Some("dislike a.com".to_string()),
            ..Default::default()
        })
        .expect("Search failed")
        .into_websites()
        .unwrap();
    assert_eq!(result.webpages.documents[0].url, "https://www.b.com");

    // A malformed program rejects the request.
    let result = searcher.search(&SearchQuery {
        query: "test".to_string(),
        optic_program: Some("@broken".to_string()),
        ..Default::default()
    });
    assert!(matches!(result, Err(stract::query::SearchError::PolicyParse(_))));
}
