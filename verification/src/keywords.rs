//! Keyword matching on candidate text.
//!
//! A text matches when, once its blank characters are taken out, one of the
//! keywords is a contiguous part of it. The comparison is exact: no case
//! folding, no normalisation.

use vstd::prelude::*;

verus! {

/// Whether matching ignores `c`: a newline, a tab, a carriage return or a space.
pub open spec fn is_blank(c: char) -> bool {
    c == '\n' || c == '\t' || c == '\r' || c == ' '
}

/// `text` without its blank characters, the others in their order.
pub open spec fn stripped(text: Seq<char>) -> Seq<char> {
    text.filter(|c: char| !is_blank(c))
}

/// Whether `word` stands in `text` from position `at` on.
pub open spec fn occurs_at(text: Seq<char>, word: Seq<char>, at: int) -> bool {
    &&& 0 <= at
    &&& at + word.len() <= text.len()
    &&& text.subrange(at, at + word.len()) == word
}

/// Whether `word` is a contiguous part of `text`. The empty word is part of
/// every text.
pub open spec fn contains_word(text: Seq<char>, word: Seq<char>) -> bool {
    exists|at: int| occurs_at(text, word, at)
}

/// Whether one of `keywords` is a contiguous part of `text` once the blank
/// characters of `text` are taken out.
pub open spec fn mentions_any(text: Seq<char>, keywords: Seq<Seq<char>>) -> bool {
    exists|k: int| 0 <= k < keywords.len() && #[trigger] contains_word(stripped(text), keywords[k])
}

/// The keywords that make an article a match.
pub const TARGETS: [&'static str; 5] = [
    "华中工学院",
    "华中科技大学",
    "华中理工大学",
    "同济",
    "武汉医学院",
];

/// The keywords of [`TARGETS`] as sequences of characters.
pub open spec fn targets() -> Seq<Seq<char>> {
    Seq::new(5, |k: int| TARGETS@[k]@)
}

/// Filtering goes element by element: the last element is kept or left out,
/// and the rest is filtered as before.
pub proof fn lemma_filter_push<A>(s: Seq<A>, pred: spec_fn(A) -> bool, last: A)
    ensures
        s.push(last).filter(pred) == if pred(last) {
            s.filter(pred).push(last)
        } else {
            s.filter(pred)
        },
{
    reveal(Seq::filter);
    assert(s.push(last).drop_last() == s);
}

/// What is left after filtering is what was there and passes the filter.
pub proof fn lemma_filter_members<A>(s: Seq<A>, pred: spec_fn(A) -> bool, a: A)
    ensures
        s.filter(pred).contains(a) <==> s.contains(a) && pred(a),
    decreases s.len(),
{
    reveal(Seq::filter);
    if s.len() > 0 {
        let rest = s.drop_last();
        lemma_filter_members(rest, pred, a);
        lemma_filter_push(rest, pred, s.last());
        assert(rest.push(s.last()) == s);
        if s.contains(a) {
            let i = choose|i: int| 0 <= i < s.len() && s[i] == a;
            if i < rest.len() {
                assert(rest[i] == a);
            }
        }
        if rest.contains(a) {
            let i = choose|i: int| 0 <= i < rest.len() && rest[i] == a;
            assert(s[i] == a);
        }
        if s.filter(pred).contains(a) {
            let i = choose|i: int| 0 <= i < s.filter(pred).len() && s.filter(pred)[i] == a;
            if pred(s.last()) && i < rest.filter(pred).len() {
                assert(rest.filter(pred)[i] == a);
            }
            if pred(s.last()) && i == rest.filter(pred).len() {
                assert(s[s.len() - 1] == a);
            }
        }
        if rest.filter(pred).contains(a) {
            let i = choose|i: int| 0 <= i < rest.filter(pred).len() && rest.filter(pred)[i] == a;
            assert(s.filter(pred)[i] == a);
        }
        if pred(a) && s.last() == a {
            assert(s.filter(pred)[s.filter(pred).len() - 1] == a);
        }
    }
}

/// The keywords, spelled out.
pub proof fn lemma_targets()
    ensures
        targets() == seq!["华中工学院"@, "华中科技大学"@, "华中理工大学"@, "同济"@, "武汉医学院"@],
        forall|k: int| 0 <= k < targets().len() ==> (#[trigger] targets()[k]).len() > 0,
{
    reveal_strlit("华中工学院");
    reveal_strlit("华中科技大学");
    reveal_strlit("华中理工大学");
    reveal_strlit("同济");
    reveal_strlit("武汉医学院");
    assert(targets() =~= seq!["华中工学院"@, "华中科技大学"@, "华中理工大学"@, "同济"@, "武汉医学院"@]);
}

/// A text without characters mentions no keyword.
pub proof fn lemma_empty_text_mentions_nothing()
    ensures
        !mentions_any(Seq::empty(), targets()),
{
    reveal(Seq::filter);
    lemma_targets();
    assert(stripped(Seq::empty()) =~= Seq::<char>::empty());
    assert forall|k: int| 0 <= k < targets().len() implies !#[trigger] contains_word(
        stripped(Seq::empty()),
        targets()[k],
    ) by {
        assert(targets()[k].len() > 0);
    }
}

/// The characters of `text`, one by one.
pub fn chars_of(text: &str) -> (out: Vec<char>)
    ensures
        out@ == text@,
{
    let mut out: Vec<char> = Vec::new();
    for c in it: text.chars()
        invariant
            it.seq() == text@,
            out@ == text@.take(it.index()),
    {
        out.push(c);
    }
    assert(text@.take(text@.len() as int) == text@);
    out
}

/// The characters of `text` that are not blank, in their order.
pub fn strip_blanks(text: &str) -> (out: Vec<char>)
    ensures
        out@ == stripped(text@),
{
    let mut out: Vec<char> = Vec::new();
    assert(stripped(text@.take(0)) == Seq::<char>::empty()) by {
        reveal(Seq::filter);
    }
    for c in it: text.chars()
        invariant
            it.seq() == text@,
            out@ == stripped(text@.take(it.index())),
    {
        proof {
            lemma_filter_push(text@.take(it.index()), |c: char| !is_blank(c), c);
            assert(text@.take(it.index()).push(c) == text@.take(it.index() + 1));
        }
        if !(c == '\n' || c == '\t' || c == '\r' || c == ' ') {
            out.push(c);
        }
    }
    assert(text@.take(text@.len() as int) == text@);
    out
}

/// Whether `word` stands in `text` from position `at` on.
fn word_at(text: &Vec<char>, word: &Vec<char>, at: usize) -> (found: bool)
    requires
        at + word.len() <= text.len(),
    ensures
        found == occurs_at(text@, word@, at as int),
{
    let mut i: usize = 0;
    while i < word.len()
        invariant
            i <= word.len(),
            at + word.len() <= text.len(),
            forall|j: int| 0 <= j < i ==> text@[at + j] == word@[j],
        decreases word.len() - i,
    {
        if text[at + i] != word[i] {
            assert(text@.subrange(at as int, at + word.len())[i as int] != word@[i as int]);
            return false;
        }
        i += 1;
    }
    assert(text@.subrange(at as int, at + word.len()) =~= word@);
    true
}

/// Whether `word` is a contiguous part of `text`.
pub fn has_word(text: &Vec<char>, word: &Vec<char>) -> (found: bool)
    ensures
        found == contains_word(text@, word@),
{
    if word.len() > text.len() {
        return false;
    }
    let last: usize = text.len() - word.len();
    let mut at: usize = 0;
    while at < last
        invariant
            last == text.len() - word.len(),
            at <= last,
            forall|j: int| 0 <= j < at ==> !occurs_at(text@, word@, j),
        decreases last - at,
    {
        if word_at(text, word, at) {
            return true;
        }
        at += 1;
    }
    word_at(text, word, last)
}

/// Whether `keywords[k]` is the first of `keywords` that `text` mentions.
pub open spec fn is_first_mention(text: Seq<char>, keywords: Seq<Seq<char>>, k: int) -> bool {
    &&& 0 <= k < keywords.len()
    &&& contains_word(stripped(text), keywords[k])
    &&& forall|j: int| 0 <= j < k ==> !contains_word(stripped(text), #[trigger] keywords[j])
}

/// Whether `text` mentions one of the keywords of [`targets`].
pub fn mentions_target(text: &str) -> (found: bool)
    ensures
        found == mentions_any(text@, targets()),
{
    first_target(text).is_some()
}

/// Position in [`TARGETS`] of the first keyword that `text` mentions, if it
/// mentions one.
pub fn first_target(text: &str) -> (found: Option<usize>)
    ensures
        found is Some <==> mentions_any(text@, targets()),
        found matches Some(k) ==> k < TARGETS.len() && is_first_mention(
            text@,
            targets(),
            k as int,
        ),
{
    let clean = strip_blanks(text);
    let words: [&str; 5] = TARGETS;
    let mut k: usize = 0;
    while k < 5
        invariant
            k <= 5,
            clean@ == stripped(text@),
            words == TARGETS,
            forall|j: int| 0 <= j < k ==> !contains_word(clean@, #[trigger] targets()[j]),
        decreases 5 - k,
    {
        let word = chars_of(words[k]);
        if has_word(&clean, &word) {
            assert(contains_word(stripped(text@), targets()[k as int]));
            return Some(k);
        }
        k += 1;
    }
    None
}

} // verus!
