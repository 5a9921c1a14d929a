//! Reading one article out of the page of its day.
//!
//! The address of an article is the address of its day's page, a `#`, and the
//! id of the article's link on that page.

use crate::keywords::chars_of;
use crate::parsers::html::{
    fits, page_fits, select_links, selected_links, selector_accepted, selector_parses, Link,
    LinkView,
};
use crate::records::{Error, ErrorView, SuccessRecord, SuccessTarget};
use vstd::prelude::*;

verus! {

/// Position of the first `#` of `text` at or after `from`; the length of
/// `text` if there is none.
pub open spec fn next_hash(text: Seq<char>, from: int) -> int
    decreases text.len() - from,
{
    if from >= text.len() {
        text.len() as int
    } else if text[from] == '#' {
        from
    } else {
        next_hash(text, from + 1)
    }
}

/// The id that the address names: what stands between its first `#` and its
/// second one, or its end. An address without `#` names none.
pub open spec fn article_id(url: Seq<char>) -> Option<Seq<char>> {
    let first = next_hash(url, 0);
    if first >= url.len() {
        None
    } else {
        Some(url.subrange(first + 1, next_hash(url, first + 1)))
    }
}

/// Whether the card's first link has the id `id`.
pub open spec fn is_card_of(card: Option<LinkView>, id: Seq<char>) -> bool {
    card matches Some(link) && link.id == Some(id)
}

/// Position of the first card at or after `from` whose link has the id `id`;
/// the number of cards if there is none.
pub open spec fn card_at(cards: Seq<Option<LinkView>>, id: Seq<char>, from: int) -> int
    decreases cards.len() - from,
{
    if from >= cards.len() {
        cards.len() as int
    } else if is_card_of(cards[from], id) {
        from
    } else {
        card_at(cards, id, from + 1)
    }
}

/// The article at `url`, given the first link of each card of the page and,
/// where the selector for the text was accepted, the first paragraph of each
/// card.
///
/// The article's card is the first one whose link has the id that `url`
/// names. The link's text is the title, the paragraph's text is the text.
pub open spec fn article_of(
    url: Seq<char>,
    links: Seq<Option<LinkView>>,
    texts: Option<Seq<Option<LinkView>>>,
) -> Result<SuccessRecord, ErrorView> {
    match article_id(url) {
        None => Err(ErrorView::ParsingError("article id selector"@)),
        Some(id) => {
            let card = card_at(links, id, 0);
            if card >= links.len() {
                Err(ErrorView::ParsingError("title element"@))
            } else {
                match texts {
                    None => Err(ErrorView::ParsingError("article selector"@)),
                    Some(texts) => if card >= texts.len() || texts[card] is None {
                        Err(ErrorView::ParsingError("select article"@))
                    } else {
                        Ok(
                            SuccessRecord {
                                title: links[card].unwrap().text,
                                url,
                                article_body: texts[card].unwrap().text,
                            },
                        )
                    },
                }
            }
        },
    }
}

/// What the page `content` comes to for the article at `url`: a failure
/// where the page is too long to be read or `url` names no id, a fault of a
/// selector, or the article.
pub open spec fn article_page(content: Seq<char>, url: Seq<char>) -> Result<
    SuccessRecord,
    ErrorView,
> {
    if !page_fits(content) {
        Err(ErrorView::ParsingError("page size"@))
    } else if article_id(url) is None {
        Err(ErrorView::ParsingError("article id selector"@))
    } else if !selector_accepted(".card"@) {
        Err(ErrorView::ParsingError("card selector"@))
    } else if !selector_accepted("a"@) {
        Err(ErrorView::ParsingError("link selector"@))
    } else {
        article_of(
            url,
            selected_links(content, ".card"@, "a"@, "href"@),
            if selector_accepted("p.card-text"@) {
                Some(selected_links(content, ".card"@, "p.card-text"@, "href"@))
            } else {
                None
            },
        )
    }
}

/// Whether `result` is what `expected` says: the same article, or the same
/// error.
pub open spec fn is_article(
    result: Result<SuccessTarget, Error>,
    expected: Result<SuccessRecord, ErrorView>,
) -> bool {
    match result {
        Ok(article) => expected == Ok::<SuccessRecord, ErrorView>(article@),
        Err(error) => expected == Err::<SuccessRecord, ErrorView>(error@),
    }
}

/// Position of the first `#` of `text` at or after `from`; the length of
/// `text` if there is none.
fn find_hash(text: &Vec<char>, from: usize) -> (at: usize)
    requires
        from <= text.len(),
    ensures
        at == next_hash(text@, from as int),
        from <= at <= text.len(),
{
    let mut at: usize = from;
    while at < text.len() && text[at] != '#'
        invariant
            from <= at <= text.len(),
            next_hash(text@, from as int) == next_hash(text@, at as int),
        decreases text.len() - at,
    {
        at += 1;
    }
    at
}

/// The id that the address `url` names, if it names one.
pub fn article_id_of(url: &str) -> (id: Option<Vec<char>>)
    ensures
        id.deep_view() == article_id(url@),
{
    let text = chars_of(url);
    let first = find_hash(&text, 0);
    if first >= text.len() {
        return None;
    }
    let end = find_hash(&text, first + 1);
    let mut id: Vec<char> = Vec::new();
    let mut i: usize = first + 1;
    while i < end
        invariant
            first + 1 <= i <= end <= text.len(),
            id@ == text@.subrange(first + 1, i as int),
        decreases end - i,
    {
        id.push(text[i]);
        i += 1;
        assert(text@.subrange(first + 1, i as int) == text@.subrange(first + 1, i - 1).push(
            text@[i - 1],
        ));
    }
    assert(id.deep_view() =~= id@);
    Some(id)
}

/// Whether `text` is made of the characters `chars`.
fn same_text(text: &str, chars: &Vec<char>) -> (same: bool)
    ensures
        same == (text@ == chars@),
{
    let other = chars_of(text);
    if other.len() != chars.len() {
        return false;
    }
    let mut i: usize = 0;
    while i < other.len()
        invariant
            i <= other.len(),
            other@ == text@,
            other.len() == chars.len(),
            forall|j: int| 0 <= j < i ==> other@[j] == chars@[j],
        decreases other.len() - i,
    {
        if other[i] != chars[i] {
            assert(text@[i as int] != chars@[i as int]);
            return false;
        }
        i += 1;
    }
    assert(other@ =~= chars@);
    true
}

/// Position of the first card whose link has the id `id`.
pub fn find_card(cards: &Vec<Option<Link>>, id: &Vec<char>) -> (found: Option<usize>)
    ensures
        match found {
            Some(card) => {
                &&& card < cards.len()
                &&& card == card_at(cards.deep_view(), id@, 0)
                &&& is_card_of(cards.deep_view()[card as int], id@)
            },
            None => card_at(cards.deep_view(), id@, 0) == cards.len(),
        },
{
    let mut card: usize = 0;
    while card < cards.len()
        invariant
            card <= cards.len(),
            card_at(cards.deep_view(), id@, 0) == card_at(cards.deep_view(), id@, card as int),
        decreases cards.len() - card,
    {
        let named = match &cards[card] {
            Some(link) => match &link.id {
                Some(link_id) => same_text(link_id.as_str(), id),
                None => false,
            },
            None => false,
        };
        assert(named == is_card_of(cards.deep_view()[card as int], id@));
        if named {
            return Some(card);
        }
        card += 1;
    }
    None
}

/// Picks the article at `url` out of what was selected from its page:
/// `links` holds the first link of each card, `texts` the first paragraph of
/// each card, or nothing where the selector for it was not accepted.
pub fn article_from(url: &str, links: &Vec<Option<Link>>, texts: Option<&Vec<Option<Link>>>) -> (result:
    Result<SuccessTarget, Error>)
    ensures
        is_article(result, article_of(url@, links.deep_view(), texts.deep_view())),
{
    let id = match article_id_of(url) {
        Some(id) => id,
        None => {
            return Err(Error::ParsingError("article id selector".to_owned()));
        },
    };
    assert(id.deep_view() =~= id@);
    let card = match find_card(links, &id) {
        Some(card) => card,
        None => {
            return Err(Error::ParsingError("title element".to_owned()));
        },
    };
    let texts = match texts {
        Some(texts) => texts,
        None => {
            return Err(Error::ParsingError("article selector".to_owned()));
        },
    };
    if card >= texts.len() {
        return Err(Error::ParsingError("select article".to_owned()));
    }
    assert(links.deep_view()[card as int] == links[card as int].deep_view());
    assert(texts.deep_view()[card as int] == texts[card as int].deep_view());
    match (&links[card], &texts[card]) {
        (Some(link), Some(text)) => Ok(
            SuccessTarget {
                title: link.text.clone(),
                url: url.to_owned(),
                article_body: text.text.clone(),
            },
        ),
        _ => Err(Error::ParsingError("select article".to_owned())),
    }
}

/// Reads the article at `url` out of `content`, the page of its day.
///
/// The cards of the page are the elements of class `card`. The article's
/// card is the first one whose first link has the id that `url` names; the
/// text of that link is the title, and the text of the card's first
/// paragraph of class `card-text` is the article's text. A page of more
/// than [`PAGE_LIMIT`](crate::parsers::html::PAGE_LIMIT) characters is not
/// read.
pub fn parse_article(content: String, url: &str) -> (result: Result<SuccessTarget, Error>)
    ensures
        is_article(result, article_page(content@, url@)),
{
    if !fits(content.as_str()) {
        return Err(Error::ParsingError("page size".to_owned()));
    }
    if article_id_of(url).is_none() {
        return Err(Error::ParsingError("article id selector".to_owned()));
    }
    if !selector_parses(".card") {
        return Err(Error::ParsingError("card selector".to_owned()));
    }
    if !selector_parses("a") {
        return Err(Error::ParsingError("link selector".to_owned()));
    }
    let links = select_links(content.as_str(), ".card", "a", "href");
    if selector_parses("p.card-text") {
        let texts = select_links(content.as_str(), ".card", "p.card-text", "href");
        article_from(url, &links, Some(&texts))
    } else {
        article_from(url, &links, None)
    }
}

} // verus!
