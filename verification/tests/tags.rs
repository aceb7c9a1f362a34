use news_ingest::schema::People;
use news_ingest::schema::Source;

fn s(v: &str) -> Option<String> {
    Some(v.to_string())
}

#[test]
fn source_tag_two_fields_in_declared_order() {
    // Only two fields of the fixed set are present; the tag joins their
    // values in the fixed field order, not in input order.
    let mut src = Source::default();
    src.from_twitter = s("B");
    src.from_department = s("A");
    assert_eq!(src.get_from(), Some("A,B".to_string()));
}

#[test]
fn source_tag_absent_when_no_field_present() {
    let src = Source::default();
    assert_eq!(src.get_from(), None);
    // Fields outside the fixed set do not make a tag appear.
    let mut other = Source::default();
    other.name = s("somewhere");
    other.country = s("X");
    other.geography = s("Y");
    assert_eq!(other.get_from(), None);
}

#[test]
fn source_tag_single_field_has_no_comma() {
    let mut src = Source::default();
    src.from_web = s("web");
    assert_eq!(src.get_from(), Some("web".to_string()));
}

#[test]
fn source_tag_keeps_empty_values() {
    // A present-but-empty value still counts as present.
    let mut src = Source::default();
    src.from_blog = s("");
    src.from_bank = s("b");
    assert_eq!(src.get_from(), Some(",b".to_string()));
}

#[test]
fn source_tag_full_order() {
    let mut src = Source::default();
    src.from_web = s("19");
    src.from_blog = s("1");
    src.from_university_region = s("18");
    src.from_bank = s("2");
    assert_eq!(src.get_from(), Some("1,2,18,19".to_string()));
}

#[test]
fn people_identity_order() {
    let mut p = People::default();
    p.identity_lawyer = s("lawyer");
    p.identity_entertainment = s("artist");
    p.identity_media = s("press");
    assert_eq!(p.get_identity(), Some("artist,press,lawyer".to_string()));
    assert_eq!(People::default().get_identity(), None);
}

#[test]
fn people_origin_skips_period_named_none() {
    let mut p = People::default();
    p.from_tibet = s("tibet");
    p.from_congressman_period = s("None");
    p.from_topic = s("topic");
    assert_eq!(p.get_from(), Some("tibet,topic".to_string()));
}

#[test]
fn people_origin_keeps_real_period() {
    let mut p = People::default();
    p.from_congressman_period = s("2019-2021");
    assert_eq!(p.get_from(), Some("2019-2021".to_string()));
}

#[test]
fn people_origin_absent_when_only_period_is_none() {
    let mut p = People::default();
    p.from_congressman_period = s("None");
    assert_eq!(p.get_from(), None);
}
