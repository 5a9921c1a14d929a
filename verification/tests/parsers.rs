use webb::parsers::article::{article_from, article_id_of, find_card};
use webb::parsers::day::day_targets;
use webb::parsers::html::{fits, Link, PAGE_LIMIT};
use webb::parsers::listing::listing_targets;
use webb::parsers::{parse_article, parse_day_page, parse_listing_page};
use webb::records::{Error, SuccessTarget};

const DAY: &str = r##"<!DOCTYPE html>
<html><head><title>1946-05-15</title></head><body>
<div class="card"><div class="card-body">
  <h5 class="card-title"><a id="1" href="/renminribao/1946/5/15/1/#1">第一条 <b>要闻</b></a></h5>
  <p class="card-text"><a href="/renminribao/1946/5/15/1/#1">武汉医学院 成立</a>正文一</p>
</div></div>
<div class="card"><div class="card-body">
  <h5 class="card-title"><a id="2" href="/renminribao/1946/5/15/1/#2">第二条</a></h5>
  <p class="card-text"><a href="/renminribao/1946/5/15/1/#2">Second</a> body <i>two</i></p>
</div></div>
</body></html>"##;

fn parsing(reason: &str) -> Error {
    Error::ParsingError(reason.to_string())
}

fn link(target: Option<&str>, id: Option<&str>, text: &str) -> Option<Link> {
    Some(Link {
        target: target.map(str::to_string),
        id: id.map(str::to_string),
        text: text.to_string(),
    })
}

#[test]
fn day_page_lists_its_articles() {
    let targets = parse_day_page(DAY.to_string()).unwrap();
    assert_eq!(
        targets,
        vec![
            SuccessTarget::new(
                "武汉医学院 成立".to_string(),
                "https://cn.govopendata.com/renminribao/1946/5/15/1/#1".to_string(),
                String::new(),
            ),
            SuccessTarget::new(
                "Second".to_string(),
                "https://cn.govopendata.com/renminribao/1946/5/15/1/#2".to_string(),
                String::new(),
            ),
        ]
    );
}

#[test]
fn day_page_without_entries_is_empty() {
    let page = "<html><body><p>nothing today</p></body></html>".to_string();
    assert_eq!(parse_day_page(page), Ok(vec![]));
    assert_eq!(parse_day_page(String::new()), Ok(vec![]));
}

#[test]
fn day_entry_without_link_fails() {
    let page = r#"<p class="card-text"><a href="/a">A</a></p><p class="card-text">no link</p>"#;
    assert_eq!(parse_day_page(page.to_string()), Err(parsing("link")));
}

#[test]
fn day_link_without_target_fails() {
    let page = r#"<p class="card-text"><a name="x">A</a></p>"#;
    assert_eq!(parse_day_page(page.to_string()), Err(parsing("link href")));
}

#[test]
fn day_targets_from_entries() {
    let entries = vec![link(Some("/a"), None, "A"), link(Some("/b#1"), Some("1"), "B")];
    assert_eq!(
        day_targets(&entries),
        Ok(vec![
            SuccessTarget::new("A".to_string(), "https://cn.govopendata.com/a".to_string(), String::new()),
            SuccessTarget::new("B".to_string(), "https://cn.govopendata.com/b#1".to_string(), String::new()),
        ])
    );
    assert_eq!(day_targets(&vec![]), Ok(vec![]));
}

#[test]
fn day_targets_first_fault_wins() {
    let entries = vec![link(Some("/a"), None, "A"), link(None, None, "B"), None];
    assert_eq!(day_targets(&entries), Err(parsing("link href")));
    let entries = vec![None, link(None, None, "B")];
    assert_eq!(day_targets(&entries), Err(parsing("link")));
}

#[test]
fn article_is_read_from_its_card() {
    let url = "https://cn.govopendata.com/renminribao/1946/5/15/1/#2";
    let article = parse_article(DAY.to_string(), url).unwrap();
    assert_eq!(
        article,
        SuccessTarget::new("第二条".to_string(), url.to_string(), "Second body two".to_string())
    );
}

#[test]
fn article_title_joins_nested_text() {
    let url = "/renminribao/1946/5/15/1/#1";
    let article = parse_article(DAY.to_string(), url).unwrap();
    assert_eq!(article.title, "第一条 要闻");
    assert_eq!(article.article_body, "武汉医学院 成立正文一");
    assert!(article.is_match());
}

#[test]
fn article_address_without_id_fails() {
    assert_eq!(
        parse_article(DAY.to_string(), "/renminribao/1946/5/15/1/"),
        Err(parsing("article id selector"))
    );
}

#[test]
fn article_that_is_not_on_the_page_fails() {
    assert_eq!(parse_article(DAY.to_string(), "/day#3"), Err(parsing("title element")));
    assert_eq!(parse_article(DAY.to_string(), "/day#"), Err(parsing("title element")));
}

#[test]
fn article_without_text_fails() {
    let page = r#"<div class="card"><a id="7" href="/d#7">T</a></div>"#;
    assert_eq!(parse_article(page.to_string(), "/d#7"), Err(parsing("select article")));
}

#[test]
fn id_is_what_follows_the_first_hash() {
    assert_eq!(article_id_of("a#b#c"), Some(vec!['b']));
    assert_eq!(article_id_of("a#"), Some(vec![]));
    assert_eq!(article_id_of("#xy"), Some(vec!['x', 'y']));
    assert_eq!(article_id_of("abc"), None);
    assert_eq!(article_id_of(""), None);
}

#[test]
fn first_card_with_the_id_is_found() {
    let cards = vec![
        None,
        link(None, None, "no id"),
        link(None, Some("12"), "other"),
        link(None, Some("1"), "first"),
        link(None, Some("1"), "second"),
    ];
    assert_eq!(find_card(&cards, &vec!['1']), Some(3));
    assert_eq!(find_card(&cards, &vec!['1', '2']), Some(2));
    assert_eq!(find_card(&cards, &vec!['2']), None);
    assert_eq!(find_card(&vec![], &vec![]), None);
}

#[test]
fn article_from_selected_parts() {
    let links = vec![link(Some("/d#1"), Some("1"), "One"), link(Some("/d#2"), Some("2"), "Two")];
    let texts = vec![link(None, None, "first text"), link(None, None, "second text")];
    assert_eq!(
        article_from("/d#2", &links, Some(&texts)),
        Ok(SuccessTarget::new("Two".to_string(), "/d#2".to_string(), "second text".to_string()))
    );
    assert_eq!(article_from("/d#2", &links, None), Err(parsing("article selector")));
    assert_eq!(article_from("/d#9", &links, None), Err(parsing("title element")));
    assert_eq!(article_from("/d", &links, Some(&texts)), Err(parsing("article id selector")));
    let texts = vec![link(None, None, "first text"), None];
    assert_eq!(article_from("/d#2", &links, Some(&texts)), Err(parsing("select article")));
    let texts = vec![link(None, None, "first text")];
    assert_eq!(article_from("/d#2", &links, Some(&texts)), Err(parsing("select article")));
}

#[test]
fn listing_page_lists_its_children() {
    let page = r#"<html><body><h1>1946</h1><ul>
        <li><a href="/renminribao/1946/1/">January</a></li>
        <li><a href="/renminribao/1946/2/">February</a> <a href="/other">other</a></li>
    </ul></body></html>"#;
    assert_eq!(
        parse_listing_page(page.to_string(), "li"),
        Ok(vec![
            "https://cn.govopendata.com/renminribao/1946/1/".to_string(),
            "https://cn.govopendata.com/renminribao/1946/2/".to_string(),
        ])
    );
    assert_eq!(parse_listing_page(page.to_string(), "ul.years > li"), Ok(vec![]));
    assert_eq!(
        parse_listing_page(page.to_string(), "h1, li"),
        Err(parsing("link"))
    );
}

#[test]
fn listing_page_with_a_bad_selector_fails() {
    assert_eq!(
        parse_listing_page("<li><a href='/a'>A</a></li>".to_string(), "li >"),
        Err(parsing("li selector"))
    );
    assert_eq!(
        parse_listing_page(String::new(), ""),
        Err(parsing("li selector"))
    );
}

#[test]
fn listing_targets_from_entries() {
    let entries = vec![link(Some("/a"), None, "A"), link(Some("/b"), None, "B")];
    assert_eq!(
        listing_targets(&entries),
        Ok(vec![
            "https://cn.govopendata.com/a".to_string(),
            "https://cn.govopendata.com/b".to_string(),
        ])
    );
    assert_eq!(listing_targets(&vec![]), Ok(vec![]));
    let entries = vec![link(Some("/a"), None, "A"), None];
    assert_eq!(listing_targets(&entries), Err(parsing("link")));
    let entries = vec![link(None, Some("x"), "A")];
    assert_eq!(listing_targets(&entries), Err(parsing("link href")));
}

#[test]
fn page_within_the_limit_fits() {
    assert!(fits(""));
    assert!(fits(DAY));
}

#[test]
fn page_beyond_the_limit_is_not_read() {
    let page = " ".repeat(PAGE_LIMIT + 1);
    assert!(!fits(&page));
    assert_eq!(parse_listing_page(page.clone(), "li"), Err(parsing("page size")));
    assert_eq!(parse_article(page.clone(), "/d#1"), Err(parsing("page size")));
    assert_eq!(parse_day_page(page), Err(parsing("page size")));
}

#[test]
fn page_size_is_counted_in_characters() {
    let page = "济".repeat(PAGE_LIMIT / 3 + 1);
    assert!(page.len() > PAGE_LIMIT);
    assert!(fits(&page));
}

#[test]
fn long_comment_of_wide_characters_is_not_read() {
    let filling = "é".repeat(1 << 20);
    let mut page = String::with_capacity(2 * PAGE_LIMIT + 8);
    page.push_str("<!--");
    while page.len() < 2 * PAGE_LIMIT {
        page.push_str(&filling);
    }
    assert!(page.len() < 1 << 31);
    assert!(!fits(&page));
    assert_eq!(parse_day_page(page), Err(parsing("page size")));
}

#[test]
fn page_limit_keeps_four_bytes_a_character_below_the_buffer_limit() {
    assert_eq!(PAGE_LIMIT, 0x1fff_ffff);
    assert!((PAGE_LIMIT as u64) * 4 < 1 << 31);
}
