use crawler::index::Index;
use crawler::processor::process_response;
use crawler::seed_request;

fn links_of(snapshot: &[(String, Vec<String>)], key: &str) -> Vec<String> {
    let mut links = snapshot
        .iter()
        .find(|(k, _)| k == key)
        .map(|(_, v)| v.clone())
        .expect("key not in snapshot");
    links.sort();
    links
}

#[test]
fn claim_wins_once_per_url() {
    let mut index = Index::new();
    assert!(index.try_claim("https://a.example/"));
    assert!(!index.try_claim("https://a.example/"));
    assert!(index.try_claim("https://b.example/"));
    assert!(!index.try_claim("https://a.example/"));
}

#[test]
fn record_without_claim_is_dropped() {
    let mut index = Index::new();
    index.record_link("https://a.example/", "https://b.example/");
    assert!(!index.contains("https://a.example/"));
    assert!(index.snapshot().is_empty());
}

#[test]
fn snapshot_round_trips_claims_and_records() {
    let mut index = Index::new();
    assert!(index.try_claim("https://a.example/"));
    assert!(index.try_claim("https://b.example/"));
    index.record_link("https://a.example/", "https://b.example/");
    index.record_link("https://a.example/", "https://c.example/");
    index.record_link("https://a.example/", "https://b.example/");

    let snapshot = index.snapshot();
    assert_eq!(snapshot.len(), 2);
    assert_eq!(
        links_of(&snapshot, "https://a.example/"),
        vec!["https://b.example/".to_string(), "https://c.example/".to_string()]
    );
    assert_eq!(links_of(&snapshot, "https://b.example/"), Vec::<String>::new());
}

#[test]
fn seed_claims_and_builds_the_first_request() {
    let mut index = Index::new();
    let req = seed_request(&mut index, "https://example.com").unwrap();
    assert_eq!(req.url, "https://example.com/");
    assert!(index.contains("https://example.com/"));
    assert!(seed_request(&mut index, "https://example.com").is_none());
}

#[test]
fn seed_rejects_an_invalid_target() {
    let mut index = Index::new();
    assert!(seed_request(&mut index, "no scheme here").is_none());
    assert!(index.snapshot().is_empty());
}

#[test]
fn a_page_links_duplicates_but_schedules_each_url_once() {
    // Seed https://example.com/; its page carries /a, the same URL again in
    // absolute form, and a link to another host. One request per distinct
    // URL comes back; the page's entry records both targets.
    let mut index = Index::new();
    let seed = seed_request(&mut index, "https://example.com/").unwrap();
    let body = r#"
        <html><body>
            <a href="/a">a</a>
            <a href="https://example.com/a">a again</a>
            <a href="https://other.com/b">b</a>
        </body></html>
    "#;
    let enq = process_response(&mut index, &seed.url, body);
    assert_eq!(
        enq,
        vec!["https://example.com/a".to_string(), "https://other.com/b".to_string()]
    );

    let snapshot = index.snapshot();
    assert_eq!(snapshot.len(), 3);
    assert_eq!(
        links_of(&snapshot, "https://example.com/"),
        vec!["https://example.com/a".to_string(), "https://other.com/b".to_string()]
    );
    assert_eq!(links_of(&snapshot, "https://example.com/a"), Vec::<String>::new());
    assert_eq!(links_of(&snapshot, "https://other.com/b"), Vec::<String>::new());
}

#[test]
fn two_pages_discovering_one_url_schedule_it_once() {
    // Two claimed pages both link to the unseen https://x.test/: both record
    // it, only the first to be processed schedules it.
    let mut index = Index::new();
    assert!(index.try_claim("https://a.example/"));
    assert!(index.try_claim("https://b.example/"));
    let body_a = r#"<a href="https://x.test/">x</a>"#;
    let body_b = r#"<a href="https://x.test/">x too</a>"#;

    let enq_a = process_response(&mut index, "https://a.example/", body_a);
    let enq_b = process_response(&mut index, "https://b.example/", body_b);
    assert_eq!(enq_a, vec!["https://x.test/".to_string()]);
    assert_eq!(enq_b, Vec::<String>::new());

    let snapshot = index.snapshot();
    assert_eq!(links_of(&snapshot, "https://a.example/"), vec!["https://x.test/".to_string()]);
    assert_eq!(links_of(&snapshot, "https://b.example/"), vec!["https://x.test/".to_string()]);
}

#[test]
fn a_page_with_an_invalid_url_changes_nothing() {
    let mut index = Index::new();
    assert!(index.try_claim("https://a.example/"));
    let enq = process_response(&mut index, "not a url", "<a href=\"/x\">x</a>");
    assert_eq!(enq, Vec::<String>::new());
    assert_eq!(index.snapshot().len(), 1);
}

#[test]
fn invalid_candidates_are_dropped_one_by_one() {
    let mut index = Index::new();
    assert!(index.try_claim("https://a.example/"));
    // `mailto:` parses as a URL and is kept; a bare word resolves against the
    // page; both outcomes are recorded while nothing invalid survives.
    let body = r#"<a href="mailto:someone@a.example">m</a><a href="/ok">ok</a>"#;
    let enq = process_response(&mut index, "https://a.example/", body);
    assert_eq!(
        enq,
        vec!["mailto:someone@a.example".to_string(), "https://a.example/ok".to_string()]
    );
}
