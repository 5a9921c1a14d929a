use webb::records::{Error, SuccessTarget, TargetType, ROOT};

#[test]
fn levels_go_down_to_the_article() {
    assert_eq!(TargetType::Index.next(), Some(TargetType::Year));
    assert_eq!(TargetType::Year.next(), Some(TargetType::Month));
    assert_eq!(TargetType::Month.next(), Some(TargetType::Day));
    assert_eq!(TargetType::Day.next(), Some(TargetType::Article));
    assert_eq!(TargetType::Article.next(), None);
}

#[test]
fn root_is_the_archive_host() {
    assert_eq!(ROOT, "https://cn.govopendata.com");
}

#[test]
fn record_matches_by_title() {
    let record = SuccessTarget::new("记同济大学".to_string(), "u".to_string(), String::new());
    assert!(record.is_match());
    assert_eq!(record.duplicate(), record);
}

#[test]
fn record_matches_by_body() {
    let record = SuccessTarget::new("t".to_string(), "u".to_string(), "华中理工\t大学".to_string());
    assert!(record.is_match());
}

#[test]
fn record_without_keyword_does_not_match() {
    let record = SuccessTarget::new("Wuhan".to_string(), "u".to_string(), "HUST".to_string());
    assert!(!record.is_match());
}

#[test]
fn errors_compare_by_reason() {
    assert_eq!(Error::ParsingError("link".to_string()), Error::ParsingError("link".to_string()));
    assert_ne!(Error::ParsingError("link".to_string()), Error::ParsingError("link href".to_string()));
    assert_ne!(Error::NetworkError, Error::GeneralError);
}

#[test]
fn record_names_the_keyword_it_is_kept_for() {
    let by_title = SuccessTarget::new("同济".to_string(), "u".to_string(), "华中工学院".to_string());
    assert_eq!(by_title.keyword(), Some(3));
    let by_text = SuccessTarget::new("t".to_string(), "u".to_string(), "武汉 医学院".to_string());
    assert_eq!(by_text.keyword(), Some(4));
    let neither = SuccessTarget::new("t".to_string(), "u".to_string(), String::new());
    assert_eq!(neither.keyword(), None);
    assert!(!neither.is_match());
}
