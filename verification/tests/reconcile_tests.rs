use feeds_to_pocket::config::FeedConfiguration;
use feeds_to_pocket::feed::{FetchOutcome, RunPlan};
use feeds_to_pocket::reconcile::{
    reconcile_all_read, run_with_verdicts, Outcome, Reconciliation,
};

fn feed_with(
    processed: Vec<&str>,
    last_modified: Option<&str>,
    last_e_tag: Option<&str>,
) -> FeedConfiguration {
    FeedConfiguration {
        url: "http://example.com/feed".to_string(),
        tags: String::new(),
        processed_entries: processed.into_iter().map(|s| s.to_string()).collect(),
        last_modified: last_modified.map(|s| s.to_string()),
        last_e_tag: last_e_tag.map(|s| s.to_string()),
    }
}

fn strings(v: Vec<&str>) -> Vec<String> {
    v.into_iter().map(|s| s.to_string()).collect()
}

#[test]
fn not_modified_plans_no_work() {
    let plan = feeds_to_pocket::feed::plan_run(FetchOutcome::Unchanged);
    assert!(matches!(plan, Ok(RunPlan::UpToDate)));
}

#[test]
fn rerun_with_no_new_content_changes_nothing() {
    let feed = feed_with(vec!["http://example.com/a"], Some("lm"), Some("et"));
    let candidates = strings(vec!["http://example.com/a"]);
    let r = run_with_verdicts(&feed, candidates, Some("lm".to_string()), Some("et".to_string()), true, vec![]);
    let (updated, outcomes, ok) = r.expect("no delivery was needed");
    assert!(ok);
    assert!(outcomes.is_empty());
    assert_eq!(updated.processed_entries, strings(vec!["http://example.com/a"]));
    assert_eq!(updated.last_modified, Some("lm".to_string()));
    assert_eq!(updated.last_e_tag, Some("et".to_string()));
}

#[test]
fn second_run_over_same_content_changes_nothing() {
    let feed = feed_with(vec![], None, None);
    let candidates = strings(vec!["http://example.com/a", "http://example.com/b"]);
    let first = run_with_verdicts(
        &feed,
        candidates.clone(),
        Some("lm".to_string()),
        Some("et".to_string()),
        true,
        vec![true, true],
    );
    let (after_first, _, ok) = first.expect("two verdicts for two candidates");
    assert!(ok);
    let second = run_with_verdicts(
        &after_first,
        candidates,
        Some("lm".to_string()),
        Some("et".to_string()),
        true,
        vec![],
    );
    let (after_second, outcomes, ok2) = second.expect("nothing left to deliver");
    assert!(ok2);
    assert!(outcomes.is_empty());
    assert_eq!(after_second.processed_entries, after_first.processed_entries);
    assert_eq!(after_second.last_modified, after_first.last_modified);
    assert_eq!(after_second.last_e_tag, after_first.last_e_tag);
}

#[test]
fn processed_entry_is_never_reattempted() {
    let feed = feed_with(vec!["http://example.com/a"], None, None);
    // The entry reappears in the fetched feed; with an empty verdict list the
    // run can only complete if the sink is never consulted.
    let candidates = strings(vec!["  http://example.com/a  ", "http://example.com/a"]);
    let r = run_with_verdicts(&feed, candidates, None, None, true, vec![]);
    let (updated, outcomes, ok) = r.expect("already-recorded entries need no delivery");
    assert!(ok);
    assert!(outcomes.is_empty());
    assert_eq!(updated.processed_entries, strings(vec!["http://example.com/a"]));
}

#[test]
fn partial_failure_keeps_progress_but_withholds_validators() {
    let feed = feed_with(vec![], Some("old-lm"), Some("old-et"));
    let candidates = strings(vec![
        "http://example.com/a",
        "http://example.com/b",
        "http://example.com/c",
    ]);
    let r = run_with_verdicts(
        &feed,
        candidates,
        Some("new-lm".to_string()),
        Some("new-et".to_string()),
        true,
        vec![true, false, true],
    );
    let (updated, outcomes, ok) = r.expect("three verdicts suffice for three candidates");
    assert!(!ok);
    assert_eq!(
        updated.processed_entries,
        strings(vec!["http://example.com/a", "http://example.com/c"])
    );
    assert_eq!(updated.last_modified, Some("old-lm".to_string()));
    assert_eq!(updated.last_e_tag, Some("old-et".to_string()));
    assert_eq!(
        outcomes,
        vec![
            ("http://example.com/a".to_string(), Outcome::Delivered),
            ("http://example.com/b".to_string(), Outcome::Failed),
            ("http://example.com/c".to_string(), Outcome::Delivered),
        ]
    );
}

#[test]
fn entry_links_are_trimmed_before_recording() {
    let feed = feed_with(vec![], None, None);
    let candidates = strings(vec!["  http://example.com/x \n"]);
    let r = run_with_verdicts(&feed, candidates, None, None, true, vec![true]);
    let (updated, outcomes, ok) = r.expect("one verdict suffices");
    assert!(ok);
    assert_eq!(updated.processed_entries, strings(vec!["http://example.com/x"]));
    assert_eq!(
        outcomes,
        vec![("http://example.com/x".to_string(), Outcome::Delivered)]
    );
}

#[test]
fn trimmed_entry_matches_recorded_form() {
    let feed = feed_with(vec!["http://example.com/x"], None, None);
    let candidates = strings(vec!["  http://example.com/x \n"]);
    let r = run_with_verdicts(&feed, candidates, None, None, true, vec![]);
    let (updated, outcomes, _ok) = r.expect("the trimmed form is already recorded");
    assert!(outcomes.is_empty());
    assert_eq!(updated.processed_entries, strings(vec!["http://example.com/x"]));
}

#[test]
fn invalid_url_is_skipped_without_sink_call() {
    let feed = feed_with(vec![], Some("old-lm"), None);
    let candidates = strings(vec!["not a url"]);
    // No verdicts supplied: the run still completes, so the sink was never
    // consulted for the malformed entry.
    let r = run_with_verdicts(
        &feed,
        candidates,
        Some("new-lm".to_string()),
        None,
        true,
        vec![],
    );
    let (updated, outcomes, ok) = r.expect("an invalid URL needs no verdict");
    assert!(ok);
    assert_eq!(
        outcomes,
        vec![("not a url".to_string(), Outcome::SkippedInvalidUrl)]
    );
    assert_eq!(updated.processed_entries, strings(vec!["not a url"]));
    // Nothing failed, so the validators observed by this fetch are installed.
    assert_eq!(updated.last_modified, Some("new-lm".to_string()));
}

#[test]
fn adoption_marks_everything_read_without_deliveries() {
    let feed = feed_with(vec![], None, None);
    let candidates = strings(vec!["http://example.com/1", "http://example.com/2"]);
    let (updated, outcomes) = reconcile_all_read(
        &feed,
        candidates,
        Some("lm".to_string()),
        Some("et".to_string()),
    );
    assert_eq!(
        updated.processed_entries,
        strings(vec!["http://example.com/1", "http://example.com/2"])
    );
    assert_eq!(
        outcomes,
        vec![
            ("http://example.com/1".to_string(), Outcome::SkippedAsRead),
            ("http://example.com/2".to_string(), Outcome::SkippedAsRead),
        ]
    );
    assert_eq!(updated.last_modified, Some("lm".to_string()));
    assert_eq!(updated.last_e_tag, Some("et".to_string()));
}

#[test]
fn later_sync_only_delivers_entries_added_after_adoption() {
    let feed = feed_with(vec![], None, None);
    let old = strings(vec!["http://example.com/1", "http://example.com/2"]);
    let (adopted, _) = reconcile_all_read(&feed, old, None, None);
    let candidates = strings(vec![
        "http://example.com/1",
        "http://example.com/2",
        "http://example.com/3",
    ]);
    let r = run_with_verdicts(&adopted, candidates, None, None, true, vec![true]);
    let (updated, outcomes, ok) = r.expect("only the new entry needs delivery");
    assert!(ok);
    assert_eq!(
        outcomes,
        vec![("http://example.com/3".to_string(), Outcome::Delivered)]
    );
    assert_eq!(
        updated.processed_entries,
        strings(vec![
            "http://example.com/1",
            "http://example.com/2",
            "http://example.com/3",
        ])
    );
}

#[test]
fn duplicate_candidate_is_delivered_once() {
    let feed = feed_with(vec![], None, None);
    let candidates = strings(vec!["http://example.com/a", "http://example.com/a"]);
    let r = run_with_verdicts(&feed, candidates, None, None, true, vec![true]);
    let (updated, outcomes, ok) = r.expect("the second occurrence is already recorded");
    assert!(ok);
    assert_eq!(
        outcomes,
        vec![("http://example.com/a".to_string(), Outcome::Delivered)]
    );
    assert_eq!(updated.processed_entries, strings(vec!["http://example.com/a"]));
}

#[test]
fn duplicate_candidate_is_retried_after_failure() {
    let feed = feed_with(vec![], None, None);
    let candidates = strings(vec!["http://example.com/a", "http://example.com/a"]);
    let r = run_with_verdicts(&feed, candidates, None, None, true, vec![false, true]);
    let (updated, outcomes, ok) = r.expect("two verdicts for two attempts");
    assert!(!ok);
    assert_eq!(
        outcomes,
        vec![
            ("http://example.com/a".to_string(), Outcome::Failed),
            ("http://example.com/a".to_string(), Outcome::Delivered),
        ]
    );
    assert_eq!(updated.processed_entries, strings(vec!["http://example.com/a"]));
}

#[test]
fn run_reports_when_verdicts_run_out() {
    let feed = feed_with(vec![], None, None);
    let candidates = strings(vec!["http://example.com/a"]);
    let r = run_with_verdicts(&feed, candidates, None, None, true, vec![]);
    assert!(r.is_none());
}

#[test]
fn session_hands_out_deliveries_one_at_a_time() {
    let feed = feed_with(vec![], Some("old-lm"), None);
    let candidates = strings(vec!["bad url", "http://example.com/a", "http://example.com/b"]);
    let mut session = Reconciliation::start(
        &feed,
        candidates,
        Some("new-lm".to_string()),
        None,
        true,
    );
    let first = session.next_delivery().expect("first deliverable entry");
    assert_eq!(first, "http://example.com/a");
    session.resolve_delivery(true);
    let second = session.next_delivery().expect("second deliverable entry");
    assert_eq!(second, "http://example.com/b");
    session.resolve_delivery(false);
    assert!(session.next_delivery().is_none());
    let (updated, outcomes, ok) = session.into_feed();
    assert!(!ok);
    assert_eq!(
        outcomes,
        vec![
            ("bad url".to_string(), Outcome::SkippedInvalidUrl),
            ("http://example.com/a".to_string(), Outcome::Delivered),
            ("http://example.com/b".to_string(), Outcome::Failed),
        ]
    );
    assert_eq!(
        updated.processed_entries,
        strings(vec!["bad url", "http://example.com/a"])
    );
    assert_eq!(updated.last_modified, Some("old-lm".to_string()));
    assert_eq!(updated.url, "http://example.com/feed");
}

#[test]
fn no_sink_skips_even_invalid_urls_as_read() {
    let feed = feed_with(vec![], None, None);
    let candidates = strings(vec!["not a url"]);
    let (updated, outcomes) = reconcile_all_read(&feed, candidates, None, None);
    assert_eq!(
        outcomes,
        vec![("not a url".to_string(), Outcome::SkippedAsRead)]
    );
    assert_eq!(updated.processed_entries, strings(vec!["not a url"]));
}
