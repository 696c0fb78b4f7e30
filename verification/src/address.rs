//! Absolute URLs as the crawler sees them: the normalized text, by which
//! two URLs are told apart, together with the scheme and the path that the
//! visit policy and the resolution of relative links read.
//!
//! Parsing and joining are done by the `url` crate. What it computes is not
//! proved here; it is named by [`url_parse`] and [`url_join`], and the rest
//! of the library is verified against those names.

use vstd::prelude::*;

verus! {

/// The mathematical value of a [`Url`].
pub struct UrlView {
    /// The normalized serialization.
    pub text: Seq<char>,
    /// The scheme, without the `:` that follows it.
    pub scheme: Seq<char>,
    /// The path component.
    pub path: Seq<char>,
}

/// An absolute URL, as produced by [`Url::parse`] or by joining a relative
/// reference onto a base.
#[derive(Debug)]
pub struct Url {
    text: String,
    scheme: String,
    path: String,
}

/// Why a string is not an absolute URL.
#[derive(Clone, Copy, Debug, PartialEq, Eq, Structural)]
pub enum ParseFailure {
    /// The string is a relative reference: it can only be resolved against
    /// a base URL.
    RelativeWithoutBase,
    /// The string is no URL at all.
    Malformed,
}

/// What `url::Url::parse` makes of `raw`: the parsed URL, or the reason why
/// there is none.
pub uninterp spec fn url_parse(raw: Seq<char>) -> Result<UrlView, ParseFailure>;

/// What `url::Url::join` makes of the reference `raw` on the URL that `base`
/// parses to; `None` where `base` does not parse or the join fails.
pub uninterp spec fn url_join(base: Seq<char>, raw: Seq<char>) -> Option<UrlView>;

impl View for Url {
    type V = UrlView;

    closed spec fn view(&self) -> UrlView {
        UrlView { text: self.text@, scheme: self.scheme@, path: self.path@ }
    }
}

/// The value of a parse outcome.
pub open spec fn outcome_view(r: Result<Url, ParseFailure>) -> Result<UrlView, ParseFailure> {
    match r {
        Ok(url) => Ok(url@),
        Err(failure) => Err(failure),
    }
}

/// The value of an optional URL.
pub open spec fn option_view(o: Option<Url>) -> Option<UrlView> {
    match o {
        Some(url) => Some(url@),
        None => None,
    }
}

/// The values of a sequence of URLs.
pub open spec fn urls_view(urls: Seq<Url>) -> Seq<UrlView> {
    Seq::new(urls.len(), |i: int| urls[i]@)
}

/// Runs `url::Url::parse` on `raw` and copies the serialization, the scheme
/// and the path out of the result. The error `RelativeUrlWithoutBase` is kept
/// apart; every other error becomes `Malformed`. Trusted: the outcome is the
/// one that [`url_parse`] names.
#[verifier::external_body]
fn parse_text(raw: &str) -> (r: Result<Url, ParseFailure>)
    ensures
        outcome_view(r) == url_parse(raw@),
{
    match url::Url::parse(raw) {
        Ok(u) => Ok(Url {
            text: u.as_str().to_string(),
            scheme: u.scheme().to_string(),
            path: u.path().to_string(),
        }),
        Err(url::ParseError::RelativeUrlWithoutBase) => Err(ParseFailure::RelativeWithoutBase),
        Err(_) => Err(ParseFailure::Malformed),
    }
}

/// Parses `base` with `url::Url::parse`, runs `url::Url::join` with `raw` on
/// the result and copies the serialization, the scheme and the path out of
/// the joined URL. Trusted: the outcome is the one that [`url_join`] names.
#[verifier::external_body]
fn join_text(base: &str, raw: &str) -> (r: Option<Url>)
    ensures
        option_view(r) == url_join(base@, raw@),
{
    let base = match url::Url::parse(base) {
        Ok(b) => b,
        Err(_) => return None,
    };
    match base.join(raw) {
        Ok(u) => Some(Url {
            text: u.as_str().to_string(),
            scheme: u.scheme().to_string(),
            path: u.path().to_string(),
        }),
        Err(_) => None,
    }
}

impl Url {
    /// Parses an absolute URL.
    pub fn parse(raw: &str) -> (r: Result<Url, ParseFailure>)
        ensures
            outcome_view(r) == url_parse(raw@),
    {
        parse_text(raw)
    }

    /// Resolves the reference `raw` against the URL written as `base`.
    pub fn join(base: &str, raw: &str) -> (r: Option<Url>)
        ensures
            option_view(r) == url_join(base@, raw@),
    {
        join_text(base, raw)
    }

    /// The normalized serialization.
    pub fn as_str(&self) -> (s: &str)
        ensures
            s@ == self@.text,
    {
        self.text.as_str()
    }

    /// The scheme, without the `:` that follows it.
    pub fn scheme(&self) -> (s: &str)
        ensures
            s@ == self@.scheme,
    {
        self.scheme.as_str()
    }

    /// The path component.
    pub fn path(&self) -> (s: &str)
        ensures
            s@ == self@.path,
    {
        self.path.as_str()
    }

    /// Gives up the URL for its normalized serialization.
    pub fn into_string(self) -> (s: String)
        ensures
            s@ == self@.text,
    {
        self.text
    }
}

impl Clone for Url {
    fn clone(&self) -> (copy: Self)
        ensures
            copy == *self,
    {
        Url { text: self.text.clone(), scheme: self.scheme.clone(), path: self.path.clone() }
    }
}

} // verus!
