//! Link extraction: the anchors of a page and the URLs they point to.
//!
//! The page is cut into tags by the tokenizer of `html5ever`. What the
//! tokenizer makes of a page is not proved here; it is named by
//! [`html_tags`]. Everything after it is verified: which tags contribute a
//! link, which of a tag's attributes is taken, and how a raw link becomes an
//! absolute URL.

use crate::address::{option_view, outcome_view, url_join, url_parse};
use crate::address::{urls_view, ParseFailure, Url, UrlView};
use crate::text::{contains, occurs_in, same_text};
use html5ever::tendril::StrTendril;
use html5ever::tokenizer::{BufferQueue, Token, TokenSink, TokenSinkResult};
use html5ever::tokenizer::{Tokenizer, TokenizerOpts};
use vstd::prelude::*;
use vstd::utf8::encode_utf8;

verus! {

/// The largest page, in bytes of UTF-8, that is handed to the tokenizer.
///
/// The tokenizer keeps its buffers in strings whose length is a `u32` and
/// whose capacity grows in powers of two. A character may grow threefold on
/// the way through it (a NUL byte becomes U+FFFD), so with this bound no
/// buffer comes near 2^31 bytes.
pub const MAX_PAGE_BYTES: usize = 0x2000_0000;

/// Whether a page is small enough to be cut into tags: its UTF-8 encoding
/// has at most [`MAX_PAGE_BYTES`] bytes.
pub open spec fn fits(html: Seq<char>) -> bool {
    encode_utf8(html).len() <= MAX_PAGE_BYTES
}

/// Opening or closing tag.
#[derive(Clone, Copy, Debug, PartialEq, Eq, Structural)]
pub enum TagKind {
    StartTag,
    EndTag,
}

/// One attribute of a tag.
#[derive(Debug)]
pub struct Attribute {
    /// The local name, in lower case.
    pub name: String,
    pub value: String,
}

/// The mathematical value of an [`Attribute`].
pub struct AttributeView {
    pub name: Seq<char>,
    pub value: Seq<char>,
}

impl View for Attribute {
    type V = AttributeView;

    open spec fn view(&self) -> AttributeView {
        AttributeView { name: self.name@, value: self.value@ }
    }
}

/// One tag of a page, as the tokenizer reports it.
#[derive(Debug)]
pub struct Tag {
    pub kind: TagKind,
    /// The tag name, in lower case.
    pub name: String,
    pub self_closing: bool,
    /// The attributes in source order.
    pub attrs: Vec<Attribute>,
}

/// The mathematical value of a [`Tag`].
pub struct TagView {
    pub kind: TagKind,
    pub name: Seq<char>,
    pub self_closing: bool,
    pub attrs: Seq<AttributeView>,
}

/// The values of a run of attributes.
pub open spec fn attrs_view(attrs: Seq<Attribute>) -> Seq<AttributeView> {
    Seq::new(attrs.len(), |i: int| attrs[i]@)
}

impl View for Tag {
    type V = TagView;

    open spec fn view(&self) -> TagView {
        TagView {
            kind: self.kind,
            name: self.name@,
            self_closing: self.self_closing,
            attrs: attrs_view(self.attrs@),
        }
    }
}

/// The values of a run of tags.
pub open spec fn tags_view(tags: Seq<Tag>) -> Seq<TagView> {
    Seq::new(tags.len(), |i: int| tags[i]@)
}

/// The tags that the `html5ever` tokenizer, with its default options and a
/// sink that lets it run on after every token, reports for the page `html`,
/// in document order.
pub uninterp spec fn html_tags(html: Seq<char>) -> Seq<TagView>;

/// `html5ever::tokenizer::Token`, which the sink is handed; opaque here.
#[verifier::external_type_specification]
#[verifier::external_body]
pub struct ExToken(Token);

/// `html5ever::tokenizer::TokenSinkResult`, the sink's answer; opaque here.
#[verifier::external_type_specification]
#[verifier::external_body]
#[verifier::reject_recursive_types(Handle)]
pub struct ExTokenSinkResult<Handle>(TokenSinkResult<Handle>);

/// The sink handed to the tokenizer: it keeps every tag and drops the rest.
struct TagSink {
    tags: Vec<Tag>,
}

impl TokenSink for TagSink {
    type Handle = ();

    /// Called by the tokenizer for each token. A tag token is copied field by
    /// field into a [`Tag`] (names and values as owned strings) and appended;
    /// every other token is dropped. The tokenizer is always told to go on.
    #[verifier::external_body]
    fn process_token(&mut self, token: Token, _line_number: u64) -> TokenSinkResult<()> {
        if let Token::TagToken(tag) = token {
            let kind = match tag.kind {
                html5ever::tokenizer::TagKind::StartTag => TagKind::StartTag,
                html5ever::tokenizer::TagKind::EndTag => TagKind::EndTag,
            };
            let mut attrs = Vec::new();
            for a in tag.attrs {
                attrs.push(Attribute { name: a.name.local.to_string(), value: a.value.to_string() });
            }
            let name = tag.name.to_string();
            self.tags.push(Tag { kind, name, self_closing: tag.self_closing, attrs });
        }
        TokenSinkResult::Continue
    }
}

/// Feeds the whole page to a fresh `html5ever` tokenizer (`Tokenizer::new`
/// with default options, `feed`, `end`) and hands back the tags that the
/// sink collected. Trusted: the tags are those that [`html_tags`] names. The
/// bound on the page keeps the tokenizer's buffers within the sizes that
/// their arithmetic is checked for.
#[verifier::external_body]
fn tokenize(html: &str) -> (tags: Vec<Tag>)
    requires
        fits(html@),
    ensures
        tags_view(tags@) == html_tags(html@),
{
    let mut queue = BufferQueue::new();
    queue.push_back(StrTendril::from(html));
    let mut tokenizer = Tokenizer::new(TagSink { tags: Vec::new() }, TokenizerOpts::default());
    let _ = tokenizer.feed(&mut queue);
    tokenizer.end();
    tokenizer.sink.tags
}

/// The value of the first attribute named `href`, if there is one.
pub open spec fn first_href(attrs: Seq<AttributeView>) -> Option<Seq<char>>
    decreases attrs.len(),
{
    if attrs.len() == 0 {
        None
    } else if attrs[0].name == "href"@ {
        Some(attrs[0].value)
    } else {
        first_href(attrs.drop_first())
    }
}

/// The raw link that a tag contributes: the first `href` of a start tag
/// named `a`. Any other tag contributes none.
pub open spec fn anchor_href(tag: TagView) -> Option<Seq<char>> {
    if tag.kind == TagKind::StartTag && tag.name == "a"@ {
        first_href(tag.attrs)
    } else {
        None
    }
}

/// The raw links of a run of tags, in document order.
pub open spec fn anchor_hrefs(tags: Seq<TagView>) -> Seq<Seq<char>>
    decreases tags.len(),
{
    if tags.len() == 0 {
        Seq::empty()
    } else {
        let before = anchor_hrefs(tags.drop_last());
        match anchor_href(tags.last()) {
            Some(href) => before.push(href),
            None => before,
        }
    }
}

/// Where a relative reference `raw` leads, given how the page's own URL
/// `base` parsed: nowhere if the base is no URL or if `raw` occurs in the
/// path of the base (the link is taken to lead back to the page), else to
/// the join of `raw` onto the base.
pub open spec fn relative_target(
    base: Seq<char>,
    parsed_base: Result<UrlView, ParseFailure>,
    raw: Seq<char>,
) -> Option<UrlView> {
    match parsed_base {
        Ok(page) => if occurs_in(raw, page.path) {
            None
        } else {
            url_join(base, raw)
        },
        Err(_) => None,
    }
}

/// Where the raw link `raw` leads, given how it parsed on its own: an
/// absolute URL stands for itself, a relative reference is resolved against
/// `base`, anything else leads nowhere.
pub open spec fn parsed_target(
    base: Seq<char>,
    raw: Seq<char>,
    parsed: Result<UrlView, ParseFailure>,
) -> Option<UrlView> {
    match parsed {
        Ok(url) => Some(url),
        Err(ParseFailure::RelativeWithoutBase) => relative_target(base, url_parse(base), raw),
        Err(ParseFailure::Malformed) => None,
    }
}

/// Where the raw link `raw`, found on the page at `base`, leads.
pub open spec fn link_target(base: Seq<char>, raw: Seq<char>) -> Option<UrlView> {
    parsed_target(base, raw, url_parse(raw))
}

/// The URLs that the raw links `raws` of the page at `base` lead to, in
/// order; links that lead nowhere are left out.
pub open spec fn link_targets(base: Seq<char>, raws: Seq<Seq<char>>) -> Seq<UrlView>
    decreases raws.len(),
{
    if raws.len() == 0 {
        Seq::empty()
    } else {
        let before = link_targets(base, raws.drop_last());
        match link_target(base, raws.last()) {
            Some(url) => before.push(url),
            None => before,
        }
    }
}

/// The child URLs of the page `html` found at `base`.
pub open spec fn extract(base: Seq<char>, html: Seq<char>) -> Seq<UrlView> {
    link_targets(base, anchor_hrefs(html_tags(html)))
}

/// If the attribute at `at` is named `href` and none before it is, its value
/// is the first `href`.
pub proof fn lemma_first_href_at(attrs: Seq<AttributeView>, at: int)
    requires
        0 <= at < attrs.len(),
        attrs[at].name == "href"@,
        forall|j: int| 0 <= j < at ==> attrs[j].name != "href"@,
    ensures
        first_href(attrs) == Some(attrs[at].value),
    decreases at,
{
    if at > 0 {
        let rest = attrs.drop_first();
        assert forall|j: int| 0 <= j < at - 1 implies rest[j].name != "href"@ by {
            assert(rest[j] == attrs[j + 1]);
        }
        lemma_first_href_at(rest, at - 1);
    }
}

/// If no attribute is named `href`, there is no first `href`.
pub proof fn lemma_first_href_none(attrs: Seq<AttributeView>)
    requires
        forall|j: int| 0 <= j < attrs.len() ==> attrs[j].name != "href"@,
    ensures
        first_href(attrs) is None,
    decreases attrs.len(),
{
    if attrs.len() > 0 {
        let rest = attrs.drop_first();
        assert forall|j: int| 0 <= j < rest.len() implies rest[j].name != "href"@ by {
            assert(rest[j] == attrs[j + 1]);
        }
        lemma_first_href_none(rest);
    }
}

/// A relative link that occurs in the path of the page it stands on leads
/// nowhere.
pub proof fn lemma_loop_is_dropped(base: Seq<char>, raw: Seq<char>)
    requires
        url_parse(raw) == Err::<UrlView, ParseFailure>(ParseFailure::RelativeWithoutBase),
        url_parse(base) is Ok,
        occurs_in(raw, url_parse(base)->Ok_0.path),
    ensures
        link_target(base, raw) is None,
{
}

/// A page none of whose tags is an anchor with an `href` has no links, and
/// so no child URLs, whatever its own URL is.
pub proof fn lemma_no_anchor_no_children(base: Seq<char>, tags: Seq<TagView>)
    requires
        forall|i: int| 0 <= i < tags.len() ==> anchor_href(#[trigger] tags[i]) is None,
    ensures
        anchor_hrefs(tags) == Seq::<Seq<char>>::empty(),
        link_targets(base, anchor_hrefs(tags)) == Seq::<UrlView>::empty(),
    decreases tags.len(),
{
    if tags.len() > 0 {
        let before = tags.drop_last();
        assert forall|i: int| 0 <= i < before.len() implies anchor_href(
            #[trigger] before[i],
        ) is None by {
            assert(before[i] == tags[i]);
        }
        lemma_no_anchor_no_children(base, before);
        assert(tags.last() == tags[tags.len() - 1]);
    }
}

/// A handle on one raw link of a [`LinkFinder`].
#[derive(Clone, Copy, Debug)]
pub struct LinkStr(usize);

impl LinkStr {
    /// The position of the raw link that the handle stands for.
    pub closed spec fn index(&self) -> nat {
        self.0 as nat
    }
}

/// The raw links of one page together with the page's own URL, against which
/// they are resolved on demand.
#[derive(Debug)]
pub struct LinkFinder {
    base: String,
    links: Vec<String>,
    /// One handle for each raw link, in document order.
    pub link_strings: Vec<LinkStr>,
}

impl Default for LinkFinder {
    fn default() -> (finder: Self)
        ensures
            finder.base() == Seq::<char>::empty(),
            finder.raw_links() == Seq::<Seq<char>>::empty(),
            finder.handles() == Seq::<LinkStr>::empty(),
    {
        let finder = LinkFinder { base: String::new(), links: Vec::new(), link_strings: Vec::new() };
        assert(finder.raw_links() =~= Seq::<Seq<char>>::empty());
        finder
    }
}

impl LinkFinder {
    /// The text of the page's own URL.
    pub closed spec fn base(&self) -> Seq<char> {
        self.base@
    }

    /// The raw links in document order.
    pub closed spec fn raw_links(&self) -> Seq<Seq<char>> {
        Seq::new(self.links@.len(), |i: int| self.links@[i]@)
    }

    /// The handles held in `link_strings`.
    pub closed spec fn handles(&self) -> Seq<LinkStr> {
        self.link_strings@
    }

    /// The handles are one per raw link, in order.
    pub open spec fn wf(&self) -> bool {
        &&& self.handles().len() == self.raw_links().len()
        &&& forall|i: int|
            0 <= i < self.handles().len() ==> (#[trigger] self.handles()[i]).index() == i
    }

    /// The URLs that the handles `handles` lead to, in order; handles that
    /// lead nowhere are left out.
    pub open spec fn targets_of(&self, handles: Seq<LinkStr>) -> Seq<UrlView>
        decreases handles.len(),
    {
        if handles.len() == 0 {
            Seq::empty()
        } else {
            let before = self.targets_of(handles.drop_last());
            match self.target_of(handles.last()) {
                Some(url) => before.push(url),
                None => before,
            }
        }
    }

    /// The URL that one handle leads to: none for a handle that stands for no
    /// raw link of this finder.
    pub open spec fn target_of(&self, link_str: LinkStr) -> Option<UrlView> {
        if link_str.index() < self.raw_links().len() {
            link_target(self.base(), self.raw_links()[link_str.index() as int])
        } else {
            None
        }
    }

    /// The number of raw links.
    pub fn link_count(&self) -> (count: usize)
        ensures
            count == self.raw_links().len(),
    {
        self.links.len()
    }

    /// Collects the raw links of a run of tags found on the page at `base`.
    pub fn from_tags(base: String, tags: Vec<Tag>) -> (finder: Self)
        ensures
            finder.wf(),
            finder.base() == base@,
            finder.raw_links() == anchor_hrefs(tags_view(tags@)),
    {
        let mut finder = Self::default();
        let ghost all = tags_view(tags@);
        for tag in it: tags
            invariant
                it.seq() == tags@,
                all == tags_view(tags@),
                finder.handles() == Seq::<LinkStr>::empty(),
                finder.raw_links() == anchor_hrefs(all.take(it.index() as int)),
        {
            proof {
                let seen = all.take(it.index() + 1);
                assert(seen.drop_last() =~= all.take(it.index() as int));
                assert(seen.last() == tag@);
            }
            finder.process_token(tag);
        }
        assert(all.take(all.len() as int) =~= all);
        let count = finder.links.len();
        let mut i: usize = 0;
        while i < count
            invariant
                count == finder.links.len(),
                i <= count,
                finder.raw_links() == anchor_hrefs(all),
                finder.link_strings@.len() == i,
                forall|j: int| 0 <= j < i ==> (#[trigger] finder.link_strings@[j]).index() == j,
            decreases count - i,
        {
            finder.link_strings.push(LinkStr(i));
            i += 1;
        }
        finder.base = base;
        finder
    }

    /// Extracts the raw links of the page `html` found at `base`.
    pub fn get_links(base: String, html: &str) -> (finder: Self)
        requires
            fits(html@),
        ensures
            finder.wf(),
            finder.base() == base@,
            finder.raw_links() == anchor_hrefs(html_tags(html@)),
    {
        let tags = tokenize(html);
        Self::from_tags(base, tags)
    }

    /// Resolves the relative reference `raw` against the page's URL, whose
    /// text is `base` and whose parse is `parsed_base`.
    pub fn resolve_relative(base: &str, parsed_base: Result<Url, ParseFailure>, raw: &str) -> (target:
        Option<Url>)
        ensures
            option_view(target) == relative_target(base@, outcome_view(parsed_base), raw@),
    {
        match parsed_base {
            Ok(page) => {
                if Self::is_loop(&page, raw) {
                    None
                } else {
                    Url::join(base, raw)
                }
            },
            Err(_) => None,
        }
    }

    /// Resolves the raw link `raw`, found on the page at `base`, given how
    /// it parsed on its own.
    pub fn resolve_parsed(base: &str, raw: &str, parsed: Result<Url, ParseFailure>) -> (target:
        Option<Url>)
        ensures
            option_view(target) == parsed_target(base@, raw@, outcome_view(parsed)),
    {
        match parsed {
            Ok(url) => Some(url),
            Err(ParseFailure::RelativeWithoutBase) => {
                let parsed_base = Url::parse(base);
                Self::resolve_relative(base, parsed_base, raw)
            },
            Err(ParseFailure::Malformed) => None,
        }
    }

    /// The absolute URL that the raw link behind `link_str` leads to.
    pub fn get_url(&self, link_str: LinkStr) -> (target: Option<Url>)
        ensures
            option_view(target) == self.target_of(link_str),
    {
        if link_str.0 >= self.links.len() {
            return None;
        }
        let raw = self.links[link_str.0].as_str();
        let parsed = Url::parse(raw);
        Self::resolve_parsed(self.base.as_str(), raw, parsed)
    }

    /// The absolute URLs that the handles in `link_strings` lead to, in
    /// order.
    pub fn collect_links(&self) -> (urls: Vec<Url>)
        ensures
            urls_view(urls@) == self.targets_of(self.handles()),
            self.wf() ==> urls_view(urls@) == link_targets(self.base(), self.raw_links()),
    {
        let mut urls: Vec<Url> = Vec::new();
        let mut i: usize = 0;
        while i < self.link_strings.len()
            invariant
                i <= self.link_strings.len(),
                urls_view(urls@) == self.targets_of(self.handles().take(i as int)),
            decreases self.link_strings.len() - i,
        {
            proof {
                let seen = self.handles().take(i + 1);
                assert(seen.drop_last() =~= self.handles().take(i as int));
                assert(seen.last() == self.link_strings@[i as int]);
            }
            let ghost before = urls_view(urls@);
            if let Some(url) = self.get_url(self.link_strings[i]) {
                urls.push(url);
                assert(urls_view(urls@) =~= before.push(url@));
            }
            i += 1;
        }
        proof {
            assert(self.handles().take(i as int) =~= self.handles());
            if self.wf() {
                self.lemma_targets_of_own_handles(self.handles().len() as int);
                assert(self.raw_links().take(self.handles().len() as int) =~= self.raw_links());
            }
        }
        urls
    }

    /// The first `n` handles of a well-formed finder lead where its first
    /// `n` raw links lead.
    pub proof fn lemma_targets_of_own_handles(&self, n: int)
        requires
            self.wf(),
            0 <= n <= self.handles().len(),
        ensures
            self.targets_of(self.handles().take(n)) == link_targets(
                self.base(),
                self.raw_links().take(n),
            ),
        decreases n,
    {
        let handles = self.handles().take(n);
        let raws = self.raw_links().take(n);
        if n > 0 {
            self.lemma_targets_of_own_handles(n - 1);
            assert(handles.drop_last() =~= self.handles().take(n - 1));
            assert(raws.drop_last() =~= self.raw_links().take(n - 1));
            assert(handles.last() == self.handles()[n - 1]);
            assert(raws.last() == self.raw_links()[n - 1]);
        }
    }

    /// Whether a relative link leads back to the page it stands on: the
    /// link occurs, as it is written, in the path of the page's URL.
    pub fn is_loop(base: &Url, link: &str) -> (looping: bool)
        ensures
            looping == occurs_in(link@, base@.path),
    {
        contains(base.path(), link)
    }

    /// Takes the value of the first attribute named `href` as a raw link. A
    /// tag without such an attribute adds nothing.
    fn push_href(&mut self, attrs: Vec<Attribute>)
        ensures
            final(self).base() == old(self).base(),
            final(self).handles() == old(self).handles(),
            final(self).raw_links() == match first_href(attrs_view(attrs@)) {
                Some(href) => old(self).raw_links().push(href),
                None => old(self).raw_links(),
            },
    {
        let ghost all = attrs_view(attrs@);
        for attr in it: attrs
            invariant
                it.seq() == attrs@,
                all == attrs_view(attrs@),
                *self == *old(self),
                forall|j: int| 0 <= j < it.index() ==> all[j].name != "href"@,
        {
            assert(attr == attrs@[it.index() as int]);
            assert(all[it.index() as int] == attr@);
            if same_text(attr.name.as_str(), "href") {
                proof {
                    lemma_first_href_at(all, it.index() as int);
                }
                self.links.push(attr.value);
                assert(self.raw_links() =~= old(self).raw_links().push(attr@.value));
                return ;
            }
        }
        proof {
            lemma_first_href_none(all);
        }
    }

    /// Takes in one tag: an opening `a` contributes its first `href`, every
    /// other tag is passed over.
    pub fn process_token(&mut self, tag: Tag)
        ensures
            final(self).base() == old(self).base(),
            final(self).handles() == old(self).handles(),
            final(self).raw_links() == match anchor_href(tag@) {
                Some(href) => old(self).raw_links().push(href),
                None => old(self).raw_links(),
            },
    {
        if tag.kind == TagKind::StartTag && same_text(tag.name.as_str(), "a") {
            self.push_href(tag.attrs);
        }
    }
}

} // verus!
