//! Reading the page of one day.

use crate::parsers::html::{
    fits, page_fits, select_links, selected_links, selector_accepted, selector_parses, Link,
    LinkView,
};
use crate::keywords::{mentions_any, targets};
use crate::records::{
    lemma_untexted_record_matches_by_title, Error, ErrorView, SuccessRecord, SuccessTarget, ROOT,
};
use vstd::prelude::*;
use vstd::string::StringExecFns;

verus! {

/// The article that a link of a day's page stands for: the link's text is
/// its title, its address is the archive's host followed by the link's
/// target, and its text is not known yet.
pub open spec fn listed_article(link: LinkView) -> SuccessRecord {
    SuccessRecord {
        title: link.text,
        url: ROOT@ + link.target.unwrap(),
        article_body: Seq::empty(),
    }
}

/// What is wrong with an entry of a day's page, if anything: it has no link,
/// or its link has no target.
pub open spec fn entry_fault(entry: Option<LinkView>) -> Option<Seq<char>> {
    match entry {
        None => Some("link"@),
        Some(link) => if link.target is None {
            Some("link href"@)
        } else {
            None
        },
    }
}

/// The articles that the entries of a day's page stand for, in their order,
/// or the fault of the first entry that has one.
pub open spec fn listed_articles(entries: Seq<Option<LinkView>>) -> Result<
    Seq<SuccessRecord>,
    ErrorView,
>
    decreases entries.len(),
{
    if entries.len() == 0 {
        Ok(Seq::empty())
    } else {
        match listed_articles(entries.drop_last()) {
            Err(error) => Err(error),
            Ok(articles) => match entry_fault(entries.last()) {
                Some(reason) => Err(ErrorView::ParsingError(reason)),
                None => Ok(articles.push(listed_article(entries.last().unwrap()))),
            },
        }
    }
}

/// What a day's page comes to: a failure where it is too long to be read,
/// a fault of one of the two selectors, or what its entries stand for.
pub open spec fn day_page(content: Seq<char>) -> Result<Seq<SuccessRecord>, ErrorView> {
    if !page_fits(content) {
        Err(ErrorView::ParsingError("page size"@))
    } else if !selector_accepted(".card-text"@) {
        Err(ErrorView::ParsingError("li selector"@))
    } else if !selector_accepted("a"@) {
        Err(ErrorView::ParsingError("link selector"@))
    } else {
        listed_articles(selected_links(content, ".card-text"@, "a"@, "href"@))
    }
}

/// Whether `result` is what `expected` says: the same articles in the same
/// order, or the same error.
pub open spec fn is_listing(
    result: Result<Vec<SuccessTarget>, Error>,
    expected: Result<Seq<SuccessRecord>, ErrorView>,
) -> bool {
    match result {
        Ok(articles) => expected == Ok::<Seq<SuccessRecord>, ErrorView>(articles.deep_view()),
        Err(error) => expected == Err::<Seq<SuccessRecord>, ErrorView>(error@),
    }
}

/// Turns the entries of a day's page into articles. The first entry without
/// a link, or with a link without a target, makes the whole page a failure.
pub fn day_targets(entries: &Vec<Option<Link>>) -> (result: Result<Vec<SuccessTarget>, Error>)
    ensures
        is_listing(result, listed_articles(entries.deep_view())),
{
    let mut results: Vec<SuccessTarget> = Vec::new();
    let mut i: usize = 0;
    assert(entries.deep_view().take(0) =~= Seq::empty());
    assert(results.deep_view() =~= Seq::empty());
    while i < entries.len()
        invariant
            i <= entries.len(),
            listed_articles(entries.deep_view().take(i as int)) == Ok::<
                Seq<SuccessRecord>,
                ErrorView,
            >(results.deep_view()),
        decreases entries.len() - i,
    {
        let ghost done = results.deep_view();
        let ghost next = entries.deep_view().take(i + 1);
        proof {
            assert(next.drop_last() == entries.deep_view().take(i as int));
            assert(next.last() == entries[i as int].deep_view());
        }
        let article = match &entries[i] {
            None => {
                proof {
                    lemma_fault_stays(next, entries.deep_view());
                }
                return Err(Error::ParsingError("link".to_owned()));
            },
            Some(link) => match &link.target {
                None => {
                    proof {
                        lemma_fault_stays(next, entries.deep_view());
                    }
                    return Err(Error::ParsingError("link href".to_owned()));
                },
                Some(target) => {
                    let mut url = ROOT.to_owned();
                    url.append(target.as_str());
                    SuccessTarget { title: link.text.clone(), url, article_body: String::new() }
                },
            },
        };
        assert(article@ == listed_article(entries[i as int].deep_view().unwrap()));
        results.push(article);
        assert(results.deep_view() =~= done.push(article@));
        i += 1;
    }
    assert(entries.deep_view().take(entries.len() as int) == entries.deep_view());
    Ok(results)
}

/// The articles that a day's page lists come without their text, so each is
/// kept or not by its title alone.
pub proof fn lemma_listed_articles_untexted(entries: Seq<Option<LinkView>>)
    ensures
        listed_articles(entries) matches Ok(articles) ==> {
            &&& articles.len() == entries.len()
            &&& forall|i: int|
                0 <= i < articles.len() ==> {
                    &&& (#[trigger] articles[i]).article_body.len() == 0
                    &&& articles[i].is_match() <==> mentions_any(articles[i].title, targets())
                }
        },
    decreases entries.len(),
{
    if entries.len() > 0 {
        lemma_listed_articles_untexted(entries.drop_last());
        if let Ok(articles) = listed_articles(entries) {
            assert forall|i: int| 0 <= i < articles.len() implies {
                &&& (#[trigger] articles[i]).article_body.len() == 0
                &&& articles[i].is_match() <==> mentions_any(articles[i].title, targets())
            } by {
                lemma_untexted_record_matches_by_title(articles[i]);
            }
        }
    }
}

/// A fault among the first entries is the fault of the whole page.
pub proof fn lemma_fault_stays(first: Seq<Option<LinkView>>, entries: Seq<Option<LinkView>>)
    requires
        first.len() <= entries.len(),
        first == entries.take(first.len() as int),
        listed_articles(first) is Err,
    ensures
        listed_articles(entries) == listed_articles(first),
    decreases entries.len() - first.len(),
{
    if first.len() < entries.len() {
        let more = entries.take(first.len() as int + 1);
        assert(more.drop_last() == first);
        lemma_fault_stays(more, entries);
    } else {
        assert(first == entries);
    }
}

/// Reads the page of one day: the articles it lists, in the order of the
/// page.
///
/// The entries are the elements of class `card-text`; each stands for the
/// article that its first link points to. A page of more than
/// [`PAGE_LIMIT`](crate::parsers::html::PAGE_LIMIT) characters is not read.
pub fn parse_day_page(content: String) -> (result: Result<Vec<SuccessTarget>, Error>)
    ensures
        is_listing(result, day_page(content@)),
{
    if !fits(content.as_str()) {
        return Err(Error::ParsingError("page size".to_owned()));
    }
    if !selector_parses(".card-text") {
        return Err(Error::ParsingError("li selector".to_owned()));
    }
    if !selector_parses("a") {
        return Err(Error::ParsingError("link selector".to_owned()));
    }
    let entries = select_links(content.as_str(), ".card-text", "a", "href");
    day_targets(&entries)
}

} // verus!
