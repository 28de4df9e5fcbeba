use feeds_to_pocket::config::{backup_file_names, Configuration, FeedConfiguration};
use feeds_to_pocket::errors::{
    save_swap_failure, status_to_string, Cause, ErrorWithContext, Errors, FeedError, PocketError,
    PocketSetupError,
};
use feeds_to_pocket::text::trim_str;

#[test]
fn default_configuration_is_empty() {
    let config = Configuration::default();
    assert!(config.consumer_key.is_none());
    assert!(config.access_token.is_none());
    assert!(config.feeds.is_empty());
}

#[test]
fn consumer_key_and_access_token_are_recorded() {
    let mut config = Configuration::default();
    config.set_consumer_key("key-123".to_string());
    config.set_access_token("token-456".to_string());
    assert_eq!(config.consumer_key, Some("key-123".to_string()));
    assert_eq!(config.access_token, Some("token-456".to_string()));
}

#[test]
fn upsert_creates_a_new_feed() {
    let mut config = Configuration::default();
    let created = config.upsert_feed(&"http://example.com/feed".to_string(), Some("news".to_string()));
    assert!(created);
    assert_eq!(config.feeds.len(), 1);
    assert_eq!(config.feeds[0].url, "http://example.com/feed");
    assert_eq!(config.feeds[0].tags, "news");
    assert!(config.feeds[0].processed_entries.is_empty());
    assert!(config.feeds[0].last_modified.is_none());
    assert!(config.feeds[0].last_e_tag.is_none());
}

#[test]
fn upsert_without_tags_creates_feed_with_empty_tags() {
    let mut config = Configuration::default();
    let created = config.upsert_feed(&"http://example.com/feed".to_string(), None);
    assert!(created);
    assert_eq!(config.feeds[0].tags, "");
}

#[test]
fn upsert_updates_tags_of_existing_feed() {
    let mut config = Configuration::default();
    config.upsert_feed(&"http://example.com/feed".to_string(), Some("old".to_string()));
    config.feeds[0].processed_entries.push("http://example.com/a".to_string());
    let created = config.upsert_feed(&"http://example.com/feed".to_string(), Some("new".to_string()));
    assert!(!created);
    assert_eq!(config.feeds.len(), 1);
    assert_eq!(config.feeds[0].tags, "new");
    // Everything else about the feed is untouched.
    assert_eq!(config.feeds[0].processed_entries, vec!["http://example.com/a".to_string()]);
}

#[test]
fn upsert_without_tags_keeps_existing_tags() {
    let mut config = Configuration::default();
    config.upsert_feed(&"http://example.com/feed".to_string(), Some("keep".to_string()));
    let created = config.upsert_feed(&"http://example.com/feed".to_string(), None);
    assert!(!created);
    assert_eq!(config.feeds[0].tags, "keep");
}

#[test]
fn remove_feed_keeps_the_others() {
    let mut config = Configuration::default();
    config.upsert_feed(&"http://example.com/a".to_string(), None);
    config.upsert_feed(&"http://example.com/b".to_string(), None);
    config.upsert_feed(&"http://example.com/c".to_string(), None);
    let r = config.remove_feed(&"http://example.com/b".to_string());
    assert!(r.is_ok());
    let urls: Vec<&str> = config.feeds.iter().map(|f| f.url.as_str()).collect();
    assert_eq!(urls, vec!["http://example.com/a", "http://example.com/c"]);
}

#[test]
fn remove_unknown_feed_reports_feed_not_found() {
    let mut config = Configuration::default();
    config.upsert_feed(&"http://example.com/a".to_string(), None);
    let r = config.remove_feed(&"http://example.com/missing".to_string());
    match r {
        Err(Cause::FeedNotFound(url)) => assert_eq!(url, "http://example.com/missing"),
        Ok(()) => panic!("expected FeedNotFound, removal succeeded"),
        Err(_) => panic!("expected FeedNotFound, got another error kind"),
    }
    assert_eq!(config.feeds.len(), 1);
}

#[test]
fn backup_names_append_new_and_old() {
    let (new_name, old_name) = backup_file_names("feeds.yaml");
    assert_eq!(new_name, "feeds.yaml.new");
    assert_eq!(old_name, "feeds.yaml.old");
}

#[test]
fn feed_configuration_new_is_blank() {
    let feed = FeedConfiguration::new("http://example.com/f".to_string(), "t".to_string());
    assert_eq!(feed.url, "http://example.com/f");
    assert_eq!(feed.tags, "t");
    assert!(feed.processed_entries.is_empty());
    assert!(feed.last_modified.is_none());
    assert!(feed.last_e_tag.is_none());
}

#[test]
fn trim_removes_surrounding_whitespace() {
    assert_eq!(trim_str("  http://example.com/x \n"), "http://example.com/x");
    assert_eq!(trim_str("\t a b \u{a0}"), "a b");
    assert_eq!(trim_str("   "), "");
    assert_eq!(trim_str(""), "");
    assert_eq!(trim_str("plain"), "plain");
}

#[test]
fn status_renders_as_decimal_text() {
    assert_eq!(status_to_string(404), "404");
    assert_eq!(status_to_string(0), "0");
    assert_eq!(status_to_string(65535), "65535");
}

#[test]
fn context_line_indents_its_cause() {
    let e = ErrorWithContext::new(Cause::Message("x\ny".to_string()), "failed".to_string());
    assert_eq!(e.message(), "failed:\n  x\n  y");
}

#[test]
fn nested_contexts_indent_twice() {
    let inner = ErrorWithContext::new(Cause::Message("boom".to_string()), "inner".to_string());
    let outer = ErrorWithContext::new(Cause::Nested(Box::new(inner)), "outer".to_string());
    assert_eq!(outer.message(), "outer:\n  inner:\n    boom");
}

#[test]
fn multiple_errors_render_one_dash_per_line() {
    let errs = Errors::new(vec!["first".to_string(), "second\nline".to_string()]);
    assert_eq!(errs.message(), "- first\n- second\n  line");
    let wrapped = ErrorWithContext::new(
        Cause::Multiple(errs),
        "failed to save configuration".to_string(),
    );
    assert_eq!(
        wrapped.message(),
        "failed to save configuration:\n  - first\n  - second\n    line"
    );
}

#[test]
fn pocket_error_messages_match_their_shape() {
    let proto = PocketError::Proto("403".to_string(), "Forbidden".to_string(), None);
    assert_eq!(proto.message(), "Forbidden (code 403)");
    let proto_with_body = PocketError::Proto(
        "152".to_string(),
        "rate limited".to_string(),
        Some("slow down".to_string()),
    );
    assert_eq!(proto_with_body.message(), "rate limited (code 152)\nslow down");
    let http = PocketError::Http("the sink returned HTTP status 500".to_string(), Some("oops".to_string()));
    assert_eq!(http.message(), "the sink returned HTTP status 500\noops");
    let io = PocketError::Io("connection reset".to_string());
    assert_eq!(io.message(), "connection reset");
}

#[test]
fn setup_error_messages_name_the_missing_credential() {
    assert!(PocketSetupError::MissingConsumerKey.message().contains("consumer key"));
    assert!(PocketSetupError::MissingAccessToken.message().contains("access token"));
}

#[test]
fn feed_error_message_shows_both_parse_failures() {
    let e = FeedError {
        atom_error: "atom says no".to_string(),
        rss_error: "rss says no".to_string(),
    };
    assert_eq!(
        e.message(),
        "could not parse input as either Atom or RSS:\n  parsing as Atom failed with:\n    atom says no\n  parsing as RSS failed with:\n    rss says no"
    );
}

#[test]
fn unacceptable_status_cause_renders_the_code() {
    let c = Cause::UnacceptableStatus(503);
    assert_eq!(c.message(), "503");
}

#[test]
fn save_swap_reports_the_rename_failure_alone_after_a_clean_rollback() {
    let rename_error =
        ErrorWithContext::new(Cause::Message("disk full".to_string()), "failed to rename".to_string());
    let r = save_swap_failure(rename_error, Ok(()));
    assert_eq!(r.message(), "failed to rename:\n  disk full");
}

#[test]
fn save_swap_reports_both_failures_when_the_rollback_fails_too() {
    let rename_error =
        ErrorWithContext::new(Cause::Message("disk full".to_string()), "failed to rename".to_string());
    let rollback_error =
        ErrorWithContext::new(Cause::Message("gone".to_string()), "failed to rename back".to_string());
    let r = save_swap_failure(rename_error, Err(rollback_error));
    assert_eq!(
        r.message(),
        "failed to save configuration:\n  - failed to rename:\n      disk full\n  - failed to rename back:\n      gone"
    );
}

#[test]
fn serde_json_error_message_is_passed_through() {
    let e = PocketError::SerdeJson("expected value at line 1".to_string());
    assert_eq!(e.message(), "expected value at line 1");
}

#[test]
fn causes_render_their_inner_error() {
    let p = Cause::Pocket(PocketError::Proto("403".to_string(), "Forbidden".to_string(), None));
    assert_eq!(p.message(), "Forbidden (code 403)");
    let s = Cause::Setup(PocketSetupError::MissingConsumerKey);
    assert!(s.message().contains("consumer key"));
    let f = Cause::FeedNotFound("http://example.com/feed".to_string());
    assert_eq!(f.message(), "No feed with URL http://example.com/feed was found.");
}

#[test]
fn empty_tags_mean_no_tags_for_delivery() {
    let without = FeedConfiguration::new("http://example.com/f".to_string(), String::new());
    assert_eq!(without.delivery_tags(), None);
    let with = FeedConfiguration::new("http://example.com/f".to_string(), "news,tech".to_string());
    assert_eq!(with.delivery_tags(), Some("news,tech".to_string()));
}
