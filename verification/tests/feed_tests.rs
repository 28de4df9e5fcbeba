use feeds_to_pocket::errors::Cause;
use feeds_to_pocket::feed::{classify_feed_response, feed_candidates, plan_run, FetchOutcome, RunPlan};

const ATOM_FEED: &str = r#"<?xml version="1.0" encoding="utf-8"?>
<feed xmlns="http://www.w3.org/2005/Atom">
  <title>Example</title>
  <id>urn:example</id>
  <updated>2024-01-02T00:00:00Z</updated>
  <entry>
    <title>Newest</title>
    <id>urn:example:2</id>
    <updated>2024-01-02T00:00:00Z</updated>
    <link rel="alternate" href=" http://example.com/newest "/>
    <link rel="self" href="http://example.com/newest.atom"/>
  </entry>
  <entry>
    <title>Oldest</title>
    <id>urn:example:1</id>
    <updated>2024-01-01T00:00:00Z</updated>
    <link href="http://example.com/oldest"/>
  </entry>
</feed>"#;

const RSS_FEED: &str = r#"<?xml version="1.0" encoding="utf-8"?>
<rss version="2.0">
  <channel>
    <title>Example</title>
    <link>http://example.com/</link>
    <description>d</description>
    <item><title>Newest</title><link>http://example.com/n</link></item>
    <item><title>No link</title></item>
    <item><title>Oldest</title><link>http://example.com/o</link></item>
  </channel>
</rss>"#;

#[test]
fn http_304_classifies_as_unchanged() {
    let r = classify_feed_response(304, None, None, String::new());
    assert!(matches!(r, Ok(FetchOutcome::Unchanged)));
}

#[test]
fn http_200_hands_over_body_and_validators() {
    let r = classify_feed_response(
        200,
        Some("lm".to_string()),
        Some("et".to_string()),
        "<feed/>".to_string(),
    );
    match r {
        Ok(FetchOutcome::Fetched { body, last_modified, e_tag }) => {
            assert_eq!(body, "<feed/>");
            assert_eq!(last_modified, Some("lm".to_string()));
            assert_eq!(e_tag, Some("et".to_string()));
        },
        _ => panic!("expected a fetched body"),
    }
}

#[test]
fn non_success_status_is_unacceptable() {
    for status in [199u16, 300, 404, 500] {
        let r = classify_feed_response(status, None, None, String::new());
        match r {
            Err(Cause::UnacceptableStatus(s)) => assert_eq!(s, status),
            _ => panic!("expected an unacceptable status"),
        }
    }
    assert!(classify_feed_response(299, None, None, String::new()).is_ok());
}

#[test]
fn atom_entries_come_out_oldest_first_with_alternate_links_only() {
    let candidates = feed_candidates(ATOM_FEED).expect("valid Atom");
    // Entries are reversed; the rel="self" link is dropped; a link without a
    // rel attribute counts as alternate; values are not yet trimmed here.
    assert_eq!(
        candidates,
        vec![
            "http://example.com/oldest".to_string(),
            " http://example.com/newest ".to_string(),
        ]
    );
}

#[test]
fn rss_items_come_out_oldest_first_skipping_missing_links() {
    let candidates = feed_candidates(RSS_FEED).expect("valid RSS");
    assert_eq!(
        candidates,
        vec!["http://example.com/o".to_string(), "http://example.com/n".to_string()]
    );
}

#[test]
fn unparseable_body_reports_both_failures() {
    let r = feed_candidates("this is not xml at all");
    match r {
        Err(e) => {
            assert!(!e.atom_error.is_empty());
            assert!(!e.rss_error.is_empty());
        },
        Ok(_) => panic!("expected a parse failure"),
    }
}

#[test]
fn plan_for_fetched_body_lists_candidates_and_validators() {
    let outcome = FetchOutcome::Fetched {
        body: RSS_FEED.to_string(),
        last_modified: Some("lm".to_string()),
        e_tag: None,
    };
    match plan_run(outcome) {
        Ok(RunPlan::Entries { candidates, last_modified, e_tag }) => {
            assert_eq!(
                candidates,
                vec!["http://example.com/o".to_string(), "http://example.com/n".to_string()]
            );
            assert_eq!(last_modified, Some("lm".to_string()));
            assert_eq!(e_tag, None);
        },
        _ => panic!("expected entries"),
    }
}

#[test]
fn feed_without_entries_yields_no_candidates() {
    let empty_atom = "<?xml version=\"1.0\" encoding=\"utf-8\"?>\n<feed xmlns=\"http://www.w3.org/2005/Atom\"><title>t</title><id>urn:e</id><updated>2024-01-01T00:00:00Z</updated></feed>";
    let candidates = feed_candidates(empty_atom).expect("valid empty Atom feed");
    assert!(candidates.is_empty());
}

#[test]
fn plan_for_garbage_body_fails() {
    let outcome = FetchOutcome::Fetched {
        body: "garbage".to_string(),
        last_modified: None,
        e_tag: None,
    };
    assert!(plan_run(outcome).is_err());
}
