//! The work of one task: which URLs may be fetched at all, and what a fetch
//! outcome yields in child URLs. The transfer itself is the caller's; this
//! module fixes its limits and takes its outcome.

use crate::address::{urls_view, Url, UrlView};
use crate::html::{extract, fits, LinkFinder, MAX_PAGE_BYTES};
use crate::text::same_text;
use vstd::prelude::*;
use vstd::utf8::{decode_utf8, valid_utf8};

verus! {

/// The most redirects that one fetch follows.
pub const MAX_REDIRECT: u32 = 2;

/// The time, in seconds, that one whole transfer may take.
pub const TIMEOUT_SEC: u64 = 2;

/// Whether a fetch follows redirects at all.
pub const FOLLOW_REDIRECTS: bool = MAX_REDIRECT > 0;

/// Why a fetch yielded no page.
#[derive(Debug)]
pub enum FetchError {
    /// More than [`MAX_REDIRECT`] redirects in a row.
    TooManyRedirects,
    /// The transfer took longer than [`TIMEOUT_SEC`] seconds.
    Timeout,
    /// Any other failure of the transport or the protocol.
    Network(String),
}

/// A fetched page: the body as it came in, and the URL that it was served
/// from once all redirects were followed. Links on the page are resolved
/// against that URL.
#[derive(Debug)]
pub struct Page {
    pub url: Url,
    pub body: Vec<u8>,
}

/// The schemes that are fetched: `http`, `https` and `file`.
pub open spec fn supported_scheme(scheme: Seq<char>) -> bool {
    scheme == "http"@ || scheme == "https"@ || scheme == "file"@
}

/// The text that `String::from_utf8_lossy` makes of `bytes`.
pub uninterp spec fn utf8_lossy(bytes: Seq<u8>) -> Seq<char>;

/// The child URLs that a task for `url` reports when its fetch brought the
/// body `bytes` from `served`: none if the scheme of `url` is not supported
/// or the decoded page is too large, else the links of the decoded page,
/// resolved against `served`.
pub open spec fn page_children(url: UrlView, served: UrlView, bytes: Seq<u8>) -> Seq<UrlView> {
    if supported_scheme(url.scheme) && fits(utf8_lossy(bytes)) {
        extract(served.text, utf8_lossy(bytes))
    } else {
        Seq::empty()
    }
}

/// A URL whose scheme is not supported has no children, whatever was
/// fetched for it.
pub proof fn lemma_unsupported_scheme_yields_nothing(
    url: UrlView,
    served: UrlView,
    bytes: Seq<u8>,
)
    requires
        !supported_scheme(url.scheme),
    ensures
        page_children(url, served, bytes) == Seq::<UrlView>::empty(),
{
}

/// Runs `String::from_utf8_lossy` on `bytes` and takes the text as an owned
/// string. Trusted: the text is the one that [`utf8_lossy`] names, and bytes
/// that are valid UTF-8 are decoded as they stand.
#[verifier::external_body]
fn decode_lossy(bytes: &[u8]) -> (text: String)
    ensures
        text@ == utf8_lossy(bytes@),
        valid_utf8(bytes@) ==> text@ == decode_utf8(bytes@),
{
    String::from_utf8_lossy(bytes).into_owned()
}

/// Whether `url` may be handed to the fetcher: only URLs with a supported
/// scheme are.
pub fn may_fetch(url: &Url) -> (allowed: bool)
    ensures
        allowed == supported_scheme(url@.scheme),
{
    let scheme = url.scheme();
    same_text(scheme, "http") || same_text(scheme, "https") || same_text(scheme, "file")
}

/// Decodes a fetched body as UTF-8, replacing what is not valid.
pub fn decode_body(bytes: &Vec<u8>) -> (text: String)
    ensures
        text@ == utf8_lossy(bytes@),
        valid_utf8(bytes@) ==> text@ == decode_utf8(bytes@),
{
    decode_lossy(bytes.as_slice())
}

/// The child URLs of the page `html` found at `url`, in document order.
pub fn page_links(url: Url, html: &str) -> (children: Vec<Url>)
    requires
        fits(html@),
    ensures
        urls_view(children@) == extract(url@.text, html@),
{
    let finder = LinkFinder::get_links(url.into_string(), html);
    finder.collect_links()
}

/// What one task reports for `url`, given the outcome of its fetch: the
/// child URLs of the page. A failed fetch, a URL whose scheme is not
/// supported and a page that is too large to be read all yield none.
pub fn visit(url: &Url, fetched: Result<Page, FetchError>) -> (children: Vec<Url>)
    ensures
        urls_view(children@) == match fetched {
            Ok(page) => page_children(url@, page.url@, page.body@),
            Err(_) => Seq::<UrlView>::empty(),
        },
{
    if !may_fetch(url) {
        return no_children();
    }
    match fetched {
        Ok(page) => {
            let html = decode_body(&page.body);
            if html.as_str().as_bytes().len() <= MAX_PAGE_BYTES {
                page_links(page.url, html.as_str())
            } else {
                no_children()
            }
        },
        Err(_) => no_children(),
    }
}

/// The report of a task that found nothing.
fn no_children() -> (children: Vec<Url>)
    ensures
        urls_view(children@) == Seq::<UrlView>::empty(),
{
    let children: Vec<Url> = Vec::new();
    assert(urls_view(children@) =~= Seq::<UrlView>::empty());
    children
}

} // verus!
