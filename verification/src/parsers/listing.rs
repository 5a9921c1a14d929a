//! Reading a page that lists pages of the level below.

use crate::parsers::day::{day_targets, listed_articles};
use crate::parsers::html::{
    fits, page_fits, select_links, selected_links, selector_accepted, selector_parses, Link,
    LinkView,
};
use crate::records::{Error, ErrorView, SuccessRecord};
use vstd::prelude::*;

verus! {

/// The addresses of `articles`, in their order.
pub open spec fn urls_of(articles: Seq<SuccessRecord>) -> Seq<Seq<char>> {
    Seq::new(articles.len(), |i: int| articles[i].url)
}

/// The addresses that the entries of a page stand for, in their order, or
/// the fault of the first entry that has one. An entry stands for the
/// address that its link points to, on the archive's host.
pub open spec fn listed_urls(entries: Seq<Option<LinkView>>) -> Result<Seq<Seq<char>>, ErrorView> {
    match listed_articles(entries) {
        Ok(articles) => Ok(urls_of(articles)),
        Err(error) => Err(error),
    }
}

/// What a page comes to whose entries are the elements that match
/// `entries`: a failure where it is too long to be read, a fault of one of
/// the two selectors, or the addresses that its entries stand for.
pub open spec fn listing_page(content: Seq<char>, entries: Seq<char>) -> Result<
    Seq<Seq<char>>,
    ErrorView,
> {
    if !page_fits(content) {
        Err(ErrorView::ParsingError("page size"@))
    } else if !selector_accepted(entries) {
        Err(ErrorView::ParsingError("li selector"@))
    } else if !selector_accepted("a"@) {
        Err(ErrorView::ParsingError("link selector"@))
    } else {
        listed_urls(selected_links(content, entries, "a"@, "href"@))
    }
}

/// Whether `result` is what `expected` says: the same addresses in the same
/// order, or the same error.
pub open spec fn is_url_list(
    result: Result<Vec<String>, Error>,
    expected: Result<Seq<Seq<char>>, ErrorView>,
) -> bool {
    match result {
        Ok(urls) => expected == Ok::<Seq<Seq<char>>, ErrorView>(urls.deep_view()),
        Err(error) => expected == Err::<Seq<Seq<char>>, ErrorView>(error@),
    }
}

/// Turns the entries of a page into the addresses of its children. The
/// first entry without a link, or with a link without a target, makes the
/// whole page a failure.
pub fn listing_targets(entries: &Vec<Option<Link>>) -> (result: Result<Vec<String>, Error>)
    ensures
        is_url_list(result, listed_urls(entries.deep_view())),
{
    let articles = match day_targets(entries) {
        Ok(articles) => articles,
        Err(error) => {
            return Err(error);
        },
    };
    let mut urls: Vec<String> = Vec::new();
    let mut i: usize = 0;
    assert(urls.deep_view() =~= urls_of(articles.deep_view()).take(0));
    while i < articles.len()
        invariant
            i <= articles.len(),
            urls.deep_view() == urls_of(articles.deep_view()).take(i as int),
        decreases articles.len() - i,
    {
        let ghost done = urls.deep_view();
        urls.push(articles[i].url.clone());
        assert(urls.deep_view() =~= done.push(articles[i as int]@.url));
        i += 1;
        assert(urls.deep_view() =~= urls_of(articles.deep_view()).take(i as int));
    }
    assert(urls.deep_view() =~= urls_of(articles.deep_view()));
    Ok(urls)
}

/// Reads a page that lists pages of the level below: the addresses of its
/// children, in the order in which its entries are selected.
///
/// The entries are the elements that match the selector `entries`; each
/// stands for the page that its first link points to. A page of more than
/// [`PAGE_LIMIT`](crate::parsers::html::PAGE_LIMIT) characters is not read.
pub fn parse_listing_page(content: String, entries: &str) -> (result: Result<Vec<String>, Error>)
    ensures
        is_url_list(result, listing_page(content@, entries@)),
{
    if !fits(content.as_str()) {
        return Err(Error::ParsingError("page size".to_owned()));
    }
    if !selector_parses(entries) {
        return Err(Error::ParsingError("li selector".to_owned()));
    }
    if !selector_parses("a") {
        return Err(Error::ParsingError("link selector".to_owned()));
    }
    let links = select_links(content.as_str(), entries, "a", "href");
    listing_targets(&links)
}

} // verus!
