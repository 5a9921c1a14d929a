//! What the page readers take from an HTML document.
//!
//! The document is parsed and queried by the `scraper` crate. What comes out
//! of it reaches the readers as plain values: for each element that matches
//! an outer selector, the first element inside it that matches an inner one.

use scraper::{Html, Selector};
use vstd::prelude::*;
use vstd::string::StrSliceExecFns;

verus! {

/// An element that was selected: one attribute of it, its `id`, and the text
/// inside it.
#[derive(Clone, Debug, PartialEq, Eq)]
pub struct Link {
    /// Value of the attribute that was asked for, if the element has it.
    pub target: Option<String>,
    /// Value of the element's `id`, if it has one.
    pub id: Option<String>,
    /// The text nodes inside the element, joined as they come.
    pub text: String,
}

/// Mathematical value of a [`Link`].
pub struct LinkView {
    pub target: Option<Seq<char>>,
    pub id: Option<Seq<char>>,
    pub text: Seq<char>,
}

impl View for Link {
    type V = LinkView;

    open spec fn view(&self) -> LinkView {
        LinkView { target: self.target.deep_view(), id: self.id.deep_view(), text: self.text@ }
    }
}

impl DeepView for Link {
    type V = LinkView;

    open spec fn deep_view(&self) -> LinkView {
        self@
    }
}

/// Longest page, in characters, that is handed to the parser.
///
/// The parser keeps text in buffers whose capacity is a 32-bit number. A
/// buffer that grows gets the next power of two as its capacity, and the
/// program stops where that is no 32-bit number any more: on any buffer of
/// more than 2^31 bytes. Comments, attribute values and runs of text are
/// gathered in one buffer each, and a character of the page puts at most
/// four bytes into a buffer. So with a page within this limit every buffer
/// stays below 2^31 bytes.
pub const PAGE_LIMIT: usize = 0x1fff_ffff;

/// Whether a page is short enough to be handed to the parser.
pub open spec fn page_fits(content: Seq<char>) -> bool {
    content.len() <= PAGE_LIMIT
}

/// Whether `content` is short enough to be handed to the parser.
pub fn fits(content: &str) -> (short: bool)
    ensures
        short == page_fits(content@),
{
    content.unicode_len() <= PAGE_LIMIT
}

/// Whether `scraper` accepts `css` as a selector group.
pub uninterp spec fn selector_accepted(css: Seq<char>) -> bool;

/// What `scraper` finds in the document `content`: for each element that
/// matches `outer`, in the order in which it yields them, the first element
/// inside it that matches `inner`, with its attribute `attr`; `None` where
/// there is no such element.
pub uninterp spec fn selected_links(
    content: Seq<char>,
    outer: Seq<char>,
    inner: Seq<char>,
    attr: Seq<char>,
) -> Seq<Option<LinkView>>;

/// Calls `scraper::Selector::parse` on `css` and says whether it returned a
/// selector. The contract gives that answer a name and claims nothing else.
#[verifier::external_body]
pub(crate) fn selector_parses(css: &str) -> (accepted: bool)
    ensures
        accepted == selector_accepted(css@),
{
    Selector::parse(css).is_ok()
}

/// Parses `content` with `scraper::Html::parse_document`, walks the elements
/// that match `outer` with `Html::select`, and takes from each the first
/// match of `inner` that `ElementRef::select` yields: its attribute `attr`
/// (`Element::attr`), its id (`Element::id`) and its text
/// (`ElementRef::text`).
///
/// Both selectors must be ones that `Selector::parse` accepts: the body
/// parses them again and would panic on one that is refused. The page must
/// be within [`PAGE_LIMIT`]: `parse_document` gathers text in buffers that
/// panic when they grow beyond 2^31 bytes.
///
/// The contract gives the result a name. It claims that the result depends
/// on the four arguments alone, and nothing about what it is.
#[verifier::external_body]
pub(crate) fn select_links(content: &str, outer: &str, inner: &str, attr: &str) -> (links: Vec<
    Option<Link>,
>)
    requires
        page_fits(content@),
        selector_accepted(outer@),
        selector_accepted(inner@),
    ensures
        links.deep_view() == selected_links(content@, outer@, inner@, attr@),
{
    let (outer, inner) = (Selector::parse(outer).unwrap(), Selector::parse(inner).unwrap());
    let document = Html::parse_document(content);
    let cards = document.select(&outer);
    cards.map(|card| card.select(&inner).next().map(|link| Link {
        target: link.value().attr(attr).map(str::to_owned),
        id: link.value().id().map(str::to_owned),
        text: link.text().collect(),
    })).collect()
}

} // verus!
