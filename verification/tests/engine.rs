use crawler::args::Args;
use crawler::limiter::RateLimiter;
use crawler::messages::{Request, Response};
use crawler::processor::{processor_step, ProcessorAction};
use crawler::queue::BoundedQueue;
use crawler::shutdown::ShutdownSignal;
use crawler::spider::{accept_fetch, spider_step, SpiderAction};

#[test]
fn a_full_queue_refuses_the_next_push_until_a_slot_frees() {
    let mut q: BoundedQueue<u32> = BoundedQueue::new(2);
    assert!(q.try_push(1).is_ok());
    assert!(q.try_push(2).is_ok());
    assert_eq!(q.try_push(3), Err(3));
    assert_eq!(q.len(), 2);
    assert_eq!(q.pop(), Some(1));
    assert!(q.try_push(3).is_ok());
    assert_eq!(q.pop(), Some(2));
    assert_eq!(q.pop(), Some(3));
    assert_eq!(q.pop(), None);
}

#[test]
fn sequential_grants_of_one_key_are_spaced_by_the_interval() {
    let mut limiter = RateLimiter::new(100);
    let key = "a.example".to_string();
    let s1 = limiter.schedule(&key, 0);
    let s2 = limiter.schedule(&key, 10);
    let s3 = limiter.schedule(&key, 10);
    let s4 = limiter.schedule(&key, 450);
    assert_eq!(s1, 0);
    assert_eq!(s2, 100);
    assert_eq!(s3, 200);
    assert_eq!(s4, 450);
    assert!(s2 - s1 >= 100 && s3 - s2 >= 100 && s4 - s3 >= 100);
}

#[test]
fn distinct_keys_never_wait_for_one_another() {
    let mut limiter = RateLimiter::new(1000);
    let a = "a.example".to_string();
    let b = "b.example".to_string();
    assert_eq!(limiter.schedule(&a, 5), 5);
    assert_eq!(limiter.schedule(&b, 6), 6);
    assert_eq!(limiter.schedule(&a, 7), 1005);
    assert_eq!(limiter.schedule(&b, 8), 1006);
}

#[test]
fn shutdown_is_set_once_and_stays_set() {
    let mut signal = ShutdownSignal::new();
    assert!(!signal.is_set());
    signal.signal();
    assert!(signal.is_set());
    signal.signal();
    assert!(signal.is_set());
}

#[test]
fn a_spider_exits_on_shutdown_or_a_closed_queue() {
    let req = Request::new("https://a.example/".to_string());
    assert!(matches!(spider_step(true, Some(req)), SpiderAction::Exit));
    assert!(matches!(spider_step(false, None), SpiderAction::Exit));
}

#[test]
fn a_spider_fetches_under_the_domain_as_throttle_key() {
    let req = Request::new("https://a.example/page".to_string());
    match spider_step(false, Some(req)) {
        SpiderAction::Fetch { key, url } => {
            assert_eq!(key, "a.example");
            assert_eq!(url, "https://a.example/page");
        },
        _ => panic!("expected a fetch"),
    }
}

#[test]
fn a_request_without_a_domain_is_dropped() {
    let req = Request::new("https://127.0.0.1/page".to_string());
    assert!(matches!(spider_step(false, Some(req)), SpiderAction::Skip));
}

#[test]
fn only_a_fetched_body_becomes_a_response() {
    let ok = accept_fetch("https://a.example/".to_string(), Some("<html></html>".to_string()));
    let response = ok.unwrap();
    assert_eq!(response.source, "https://a.example/");
    assert_eq!(response.body, "<html></html>");
    assert!(accept_fetch("https://a.example/".to_string(), None).is_none());
}

#[test]
fn a_processor_exits_on_shutdown_or_a_closed_queue_and_handles_work() {
    let resp = Response::new("https://a.example/".to_string(), "hi".to_string());
    assert!(matches!(processor_step(true, Some(resp)), ProcessorAction::Exit));
    assert!(matches!(processor_step(false, None), ProcessorAction::Exit));
    let resp = Response::new("https://a.example/".to_string(), "hi".to_string());
    match processor_step(false, Some(resp)) {
        ProcessorAction::Handle(r) => assert_eq!(r.source, "https://a.example/"),
        ProcessorAction::Exit => panic!("expected work"),
    }
}

#[test]
fn configuration_faults_are_caught_before_spawning() {
    let ok = Args {
        target: "https://a.example".to_string(),
        connections: 128,
        parsers: 64,
        interval: 5000,
        file: None,
    };
    assert!(ok.validate());
    let no_spiders = Args { connections: 0, ..ok };
    assert!(!no_spiders.validate());
    let no_parsers = Args { parsers: 0, ..no_spiders };
    assert!(!no_parsers.validate());
    let no_interval = Args {
        target: "https://a.example".to_string(),
        connections: 1,
        parsers: 1,
        interval: 0,
        file: Some("out.json".to_string()),
    };
    assert!(!no_interval.validate());
}
