use crawler::address::Url;
use crawler::fetch::{decode_body, may_fetch, page_links, visit, FetchError, Page};
use crawler::fetch::{FOLLOW_REDIRECTS, MAX_REDIRECT, TIMEOUT_SEC};
use crawler::html::MAX_PAGE_BYTES;

fn texts(urls: Vec<Url>) -> Vec<String> {
    let mut texts = Vec::new();
    for url in urls {
        texts.push(url.into_string());
    }
    texts
}

fn page() -> Url {
    Url::parse("http://a.test/dir/page.html").unwrap()
}

fn served(url: &Url, body: &[u8]) -> Result<Page, FetchError> {
    Ok(Page { url: url.clone(), body: body.to_vec() })
}

#[test]
fn limits_have_their_values() {
    assert_eq!(MAX_REDIRECT, 2);
    assert_eq!(TIMEOUT_SEC, 2);
    assert!(FOLLOW_REDIRECTS);
    assert_eq!(MAX_PAGE_BYTES, 512 * 1024 * 1024);
}

#[test]
fn http_https_and_file_may_be_fetched() {
    assert!(may_fetch(&Url::parse("http://a.test/").unwrap()));
    assert!(may_fetch(&Url::parse("https://a.test/").unwrap()));
    assert!(may_fetch(&Url::parse("file:///tmp/index.html").unwrap()));
    assert!(may_fetch(&Url::parse("HTTPS://A.TEST/").unwrap()));
}

#[test]
fn other_schemes_never_reach_the_fetcher() {
    assert!(!may_fetch(&Url::parse("mailto:x@y.test").unwrap()));
    assert!(!may_fetch(&Url::parse("javascript:void(0)").unwrap()));
    assert!(!may_fetch(&Url::parse("ftp://a.test/file").unwrap()));
    assert!(!may_fetch(&Url::parse("httpx://a.test/").unwrap()));
    assert!(!may_fetch(&Url::parse("data:text/html,<a href=x>").unwrap()));
}

#[test]
fn a_mailto_url_yields_no_children() {
    let mail = Url::parse("mailto:x@y.test").unwrap();
    let body = b"<a href=\"http://b.test/\">b</a>";
    assert!(visit(&mail, served(&mail, body)).is_empty());
    assert!(visit(&mail, served(&page(), body)).is_empty());
}

#[test]
fn too_many_redirects_yield_no_children() {
    assert!(visit(&page(), Err(FetchError::TooManyRedirects)).is_empty());
}

#[test]
fn a_timeout_yields_no_children() {
    assert!(visit(&page(), Err(FetchError::Timeout)).is_empty());
}

#[test]
fn a_network_failure_yields_no_children() {
    let failure = FetchError::Network("connection refused".to_string());
    assert!(visit(&page(), Err(failure)).is_empty());
}

#[test]
fn a_fetched_page_yields_its_links() {
    let body = b"<a href=\"sub/page2.html\">2</a><a href=\"dir/page.html\">me</a>\
                 <a href=\"https://b.test/\">b</a>";
    assert_eq!(
        texts(visit(&page(), served(&page(), body))),
        vec!["http://a.test/dir/sub/page2.html", "https://b.test/"]
    );
}

#[test]
fn an_empty_page_yields_no_children() {
    assert!(visit(&page(), served(&page(), b"")).is_empty());
    assert!(visit(&page(), served(&page(), b"<p>nothing to follow</p>")).is_empty());
}

#[test]
fn a_body_with_bad_utf8_is_still_read() {
    let mut body = b"<p>\xff\xfe</p><a href=\"ok.html\">ok".to_vec();
    body.extend_from_slice(b"\xc3</a>");
    assert_eq!(texts(visit(&page(), served(&page(), &body))), vec!["http://a.test/dir/ok.html"]);
}

#[test]
fn decode_body_replaces_what_is_not_utf8() {
    assert_eq!(decode_body(&b"caf\xc3\xa9".to_vec()), "caf\u{e9}");
    assert_eq!(decode_body(&b"a\xffb".to_vec()), "a\u{fffd}b");
    assert_eq!(decode_body(&b"\xc3".to_vec()), "\u{fffd}");
    assert_eq!(decode_body(&Vec::new()), "");
}

#[test]
fn page_links_resolves_against_the_page() {
    let links = page_links(page(), "<a href=\"x.html\"></a><a href=\"page.html\"></a>");
    assert_eq!(texts(links), vec!["http://a.test/dir/x.html"]);
}

#[test]
fn a_file_page_is_read_like_any_other() {
    let url = Url::parse("file:///srv/www/index.html").unwrap();
    let body = b"<a href=\"about.html\">about</a>";
    assert_eq!(texts(visit(&url, served(&url, body))), vec!["file:///srv/www/about.html"]);
}

#[test]
fn links_are_resolved_against_the_url_that_served_the_page() {
    let asked = Url::parse("http://a.test/old").unwrap();
    let moved = Url::parse("https://b.test/new/index.html").unwrap();
    let body = b"<a href=\"next.html\">next</a><a href=\"old\">old</a><a href=\"new\">new</a>";
    assert_eq!(
        texts(visit(&asked, served(&moved, body))),
        vec!["https://b.test/new/next.html", "https://b.test/new/old"]
    );
}
