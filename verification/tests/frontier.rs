use crawler::address::Url;
use crawler::fetch::{visit, FetchError, Page};
use crawler::frontier::{Frontier, Step};

fn url(text: &str) -> Url {
    Url::parse(text).unwrap()
}

fn visited(step: Step) -> String {
    match step {
        Step::Visit(url) => url.into_string(),
        other => panic!("expected a visit, got {:?}", other),
    }
}

/// Runs a whole crawl over pages held in memory, one task at a time, and
/// returns the stream of visits.
fn crawl(seed: &str, pages: &[(&str, &str)]) -> Vec<String> {
    let mut frontier = Frontier::new(url(seed));
    let mut stream = Vec::new();
    let mut running: Vec<Url> = Vec::new();
    let mut steps = 0;
    loop {
        steps += 1;
        assert!(steps < 10_000);
        match frontier.next() {
            Step::Visit(url) => {
                stream.push(url.as_str().to_string());
                running.push(url);
            },
            Step::Wait => {
                let url = running.remove(0);
                let mut body = None;
                for (at, html) in pages {
                    if *at == url.as_str() {
                        body = Some(html.as_bytes().to_vec());
                    }
                }
                let fetched = match body {
                    Some(body) => Ok(Page { url: url.clone(), body }),
                    None => Err(FetchError::Network("not found".to_string())),
                };
                assert!(frontier.task_done(visit(&url, fetched)));
            },
            Step::Done => break,
        }
    }
    assert!(running.is_empty());
    stream
}

#[test]
fn the_seed_is_visited_first() {
    let mut frontier = Frontier::new(url("http://a.test/"));
    assert!(!frontier.has_seen("http://a.test/"));
    assert_eq!(frontier.in_flight(), 0);
    assert_eq!(visited(frontier.next()), "http://a.test/");
    assert!(frontier.has_seen("http://a.test/"));
    assert_eq!(frontier.in_flight(), 1);
}

#[test]
fn with_a_task_in_flight_the_owner_waits() {
    let mut frontier = Frontier::new(url("http://a.test/"));
    assert!(matches!(frontier.next(), Step::Visit(_)));
    assert!(matches!(frontier.next(), Step::Wait));
    assert!(matches!(frontier.next(), Step::Wait));
    assert_eq!(frontier.in_flight(), 1);
}

#[test]
fn the_crawl_is_over_when_nothing_is_pending_or_in_flight() {
    let mut frontier = Frontier::new(url("http://a.test/"));
    assert!(matches!(frontier.next(), Step::Visit(_)));
    assert!(frontier.task_done(Vec::new()));
    assert_eq!(frontier.in_flight(), 0);
    assert!(matches!(frontier.next(), Step::Done));
    assert!(matches!(frontier.next(), Step::Done));
}

#[test]
fn a_url_discovered_twice_is_visited_once() {
    let mut frontier = Frontier::new(url("http://a.test/"));
    assert_eq!(visited(frontier.next()), "http://a.test/");
    let children = vec![
        url("http://a.test/x"),
        url("http://a.test/"),
        url("http://a.test/x"),
        url("http://a.test/y"),
        url("http://a.test/x"),
    ];
    assert!(frontier.task_done(children));
    assert_eq!(visited(frontier.next()), "http://a.test/x");
    assert_eq!(visited(frontier.next()), "http://a.test/y");
    assert!(matches!(frontier.next(), Step::Wait));
    assert_eq!(frontier.in_flight(), 2);
    assert!(frontier.task_done(vec![url("http://a.test/y"), url("http://a.test/")]));
    assert!(matches!(frontier.next(), Step::Wait));
    assert!(frontier.task_done(Vec::new()));
    assert!(matches!(frontier.next(), Step::Done));
}

#[test]
fn urls_are_told_apart_by_their_normalized_text() {
    let mut frontier = Frontier::new(url("HTTP://A.test"));
    assert_eq!(visited(frontier.next()), "http://a.test/");
    assert!(frontier.task_done(vec![url("http://a.test/"), url("http://a.test/#top"), url("http://a.test")]));
    assert_eq!(visited(frontier.next()), "http://a.test/#top");
    assert!(matches!(frontier.next(), Step::Wait));
}

#[test]
fn visits_follow_the_order_of_arrival() {
    let mut frontier = Frontier::new(url("http://a.test/"));
    assert_eq!(visited(frontier.next()), "http://a.test/");
    assert!(frontier.task_done(vec![url("http://a.test/2"), url("http://a.test/1")]));
    assert_eq!(visited(frontier.next()), "http://a.test/2");
    assert!(frontier.task_done(vec![url("http://a.test/3")]));
    assert_eq!(visited(frontier.next()), "http://a.test/1");
    assert_eq!(visited(frontier.next()), "http://a.test/3");
}

#[test]
fn a_report_without_a_task_is_turned_down() {
    let mut frontier = Frontier::new(url("http://a.test/"));
    assert!(!frontier.task_done(vec![url("http://b.test/")]));
    assert_eq!(frontier.in_flight(), 0);
    assert_eq!(visited(frontier.next()), "http://a.test/");
    assert!(frontier.task_done(Vec::new()));
    assert!(!frontier.task_done(vec![url("http://b.test/")]));
    assert!(!frontier.has_seen("http://b.test/"));
    assert!(matches!(frontier.next(), Step::Done));
}

#[test]
fn a_url_with_another_scheme_is_visited_but_leads_nowhere() {
    let pages = [("http://a.test/", "<a href=\"mailto:x@y.test\">mail</a>")];
    assert_eq!(crawl("http://a.test/", &pages), vec!["http://a.test/", "mailto:x@y.test"]);
}

#[test]
fn a_closed_graph_is_crawled_to_the_end() {
    let pages = [
        ("http://a.test/", "<a href=\"one.html\">1</a><a href=\"two.html\">2</a>"),
        ("http://a.test/one.html", "<a href=\"two.html\">2</a><a href=\"http://a.test/\">home</a>"),
        ("http://a.test/two.html", "<a href=\"three.html\">3</a><a href=\"one.html\">1</a>"),
        ("http://a.test/three.html", "<a href=\"http://a.test/\">home</a><a href=\"three.html\">3</a>"),
    ];
    assert_eq!(
        crawl("http://a.test/", &pages),
        vec!["http://a.test/", "http://a.test/one.html", "http://a.test/two.html", "http://a.test/three.html"]
    );
}

#[test]
fn a_page_without_anchors_does_not_stall_the_crawl() {
    let pages = [("http://a.test/", "<p>the end</p>")];
    assert_eq!(crawl("http://a.test/", &pages), vec!["http://a.test/"]);
}

#[test]
fn a_failed_fetch_is_a_dead_end() {
    let pages = [("http://a.test/", "<a href=\"gone.html\">gone</a><a href=\"here.html\">here</a>"),
        ("http://a.test/here.html", "<a href=\"gone.html\">gone</a>")];
    assert_eq!(
        crawl("http://a.test/", &pages),
        vec!["http://a.test/", "http://a.test/gone.html", "http://a.test/here.html"]
    );
}
