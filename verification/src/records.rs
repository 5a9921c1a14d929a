//! The values a crawl works with: archive levels, results and errors.

use crate::keywords::{
    first_target, is_first_mention, lemma_empty_text_mentions_nothing, mentions_any, targets,
    TARGETS,
};
use vstd::prelude::*;

verus! {

/// Host that relative links of the archive are resolved against.
pub const ROOT: &'static str = "https://cn.govopendata.com";

/// The five levels of the archive, from the entry page down to one article.
#[derive(Clone, Copy, Debug, PartialEq, Eq, Structural)]
pub enum TargetType {
    Index,
    Year,
    Month,
    Day,
    Article,
}

impl TargetType {
    /// The level of the pages that a page of this level links to; an article
    /// links to none.
    pub open spec fn below(self) -> Option<TargetType> {
        match self {
            TargetType::Index => Some(TargetType::Year),
            TargetType::Year => Some(TargetType::Month),
            TargetType::Month => Some(TargetType::Day),
            TargetType::Day => Some(TargetType::Article),
            TargetType::Article => None,
        }
    }

    /// The level one step further down, if there is one.
    pub fn next(self) -> (level: Option<TargetType>)
        ensures
            level == self.below(),
    {
        match self {
            TargetType::Index => Some(TargetType::Year),
            TargetType::Year => Some(TargetType::Month),
            TargetType::Month => Some(TargetType::Day),
            TargetType::Day => Some(TargetType::Article),
            TargetType::Article => None,
        }
    }
}

/// What went wrong, as a task or the whole run sees it.
#[derive(Clone, Debug, PartialEq, Eq)]
pub enum Error {
    /// Every attempt to fetch a page failed.
    NetworkError,
    /// A page did not have the expected structure; the text names the part
    /// that was missing.
    ParsingError(String),
    /// The run's own bookkeeping cannot go on.
    GeneralError,
}

/// Mathematical value of an [`Error`].
pub enum ErrorView {
    NetworkError,
    ParsingError(Seq<char>),
    GeneralError,
}

impl View for Error {
    type V = ErrorView;

    open spec fn view(&self) -> ErrorView {
        match self {
            Error::NetworkError => ErrorView::NetworkError,
            Error::ParsingError(reason) => ErrorView::ParsingError(reason@),
            Error::GeneralError => ErrorView::GeneralError,
        }
    }
}

/// An article that was found: its title, its address and its text.
#[derive(Clone, Debug, PartialEq, Eq)]
pub struct SuccessTarget {
    pub title: String,
    pub url: String,
    pub article_body: String,
}

/// Mathematical value of a [`SuccessTarget`].
pub struct SuccessRecord {
    pub title: Seq<char>,
    pub url: Seq<char>,
    pub article_body: Seq<char>,
}

impl View for SuccessTarget {
    type V = SuccessRecord;

    open spec fn view(&self) -> SuccessRecord {
        SuccessRecord { title: self.title@, url: self.url@, article_body: self.article_body@ }
    }
}

impl DeepView for SuccessTarget {
    type V = SuccessRecord;

    open spec fn deep_view(&self) -> SuccessRecord {
        self@
    }
}

impl SuccessRecord {
    /// Whether the record is kept as a success: its title or its text
    /// mentions one of the keywords.
    pub open spec fn is_match(self) -> bool {
        mentions_any(self.title, targets()) || mentions_any(self.article_body, targets())
    }

    /// Whether the keyword at position `k` is the one the record is kept
    /// for: the first one that its title mentions or, where the title
    /// mentions none, the first one that its text mentions.
    pub open spec fn kept_for(self, k: int) -> bool {
        if mentions_any(self.title, targets()) {
            is_first_mention(self.title, targets(), k)
        } else {
            is_first_mention(self.article_body, targets(), k)
        }
    }
}

/// A record without article text, as a day's page lists it, is kept exactly
/// if its title mentions a keyword.
pub proof fn lemma_untexted_record_matches_by_title(record: SuccessRecord)
    requires
        record.article_body.len() == 0,
    ensures
        record.is_match() <==> mentions_any(record.title, targets()),
{
    lemma_empty_text_mentions_nothing();
    assert(record.article_body =~= Seq::empty());
}

impl SuccessTarget {
    /// A record of the article at `url`.
    pub fn new(title: String, url: String, article_body: String) -> (record: SuccessTarget)
        ensures
            record@ == (SuccessRecord { title: title@, url: url@, article_body: article_body@ }),
    {
        SuccessTarget { title, url, article_body }
    }

    /// Whether the record is kept as a success.
    pub fn is_match(&self) -> (kept: bool)
        ensures
            kept == self@.is_match(),
    {
        self.keyword().is_some()
    }

    /// Position in [`TARGETS`](crate::keywords::TARGETS) of the keyword
    /// that the record is kept for, if it is kept.
    pub fn keyword(&self) -> (found: Option<usize>)
        ensures
            found is Some <==> self@.is_match(),
            found matches Some(k) ==> k < TARGETS.len() && self@.kept_for(k as int),
    {
        match first_target(self.title.as_str()) {
            Some(k) => Some(k),
            None => first_target(self.article_body.as_str()),
        }
    }

    /// A copy of the record.
    pub fn duplicate(&self) -> (copy: SuccessTarget)
        ensures
            copy@ == self@,
    {
        SuccessTarget {
            title: self.title.clone(),
            url: self.url.clone(),
            article_body: self.article_body.clone(),
        }
    }
}

/// A page that could not be fetched or read: its address and its level.
#[derive(Clone, Debug, PartialEq, Eq)]
pub struct FailTarget {
    pub url: String,
    pub target_type: TargetType,
}

/// Mathematical value of a [`FailTarget`].
pub struct FailRecord {
    pub url: Seq<char>,
    pub target_type: TargetType,
}

impl View for FailTarget {
    type V = FailRecord;

    open spec fn view(&self) -> FailRecord {
        FailRecord { url: self.url@, target_type: self.target_type }
    }
}

impl DeepView for FailTarget {
    type V = FailRecord;

    open spec fn deep_view(&self) -> FailRecord {
        self@
    }
}

} // verus!
