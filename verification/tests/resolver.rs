use news_ingest::store::Store;

fn s(v: &str) -> String {
    v.to_string()
}

#[test]
fn country_resolution_converges_on_one_row() {
    // Resolving the same natural key many times yields one persisted row
    // and the same identifier for every caller.
    let mut store = Store::new();
    let first = store.resolve_country(&s("Norway"), &Some(s("Europe")), false);
    let second = store.resolve_country(&s("Norway"), &None, true);
    let third = store.resolve_country(&s("Norway"), &Some(s("elsewhere")), true);
    assert_eq!(first, 1);
    assert_eq!(second, first);
    assert_eq!(third, first);
    assert_eq!(store.countries.len(), 1);
}

#[test]
fn country_attributes_are_not_overwritten() {
    let mut store = Store::new();
    store.resolve_country(&s("Chile"), &Some(s("South America")), false);
    store.resolve_country(&s("Chile"), &Some(s("somewhere else")), true);
    assert_eq!(store.countries[0].geography, Some(s("South America")));
    assert!(!store.countries[0].flag);
}

#[test]
fn distinct_names_get_distinct_ids() {
    let mut store = Store::new();
    let a = store.resolve_country(&s("A"), &None, false);
    let b = store.resolve_country(&s("B"), &None, false);
    assert_eq!(a, 1);
    assert_eq!(b, 2);
    assert_eq!(store.countries.len(), 2);
}

#[test]
fn source_reuses_row_and_keeps_attributes() {
    // Two payloads for one source name: the second resolution returns the
    // first row's identifier and overwrites nothing.
    let mut store = Store::new();
    let cid = store.resolve_country(&s("France"), &None, false);
    let first = store.resolve_source(&s("Le Canard"), Some(cid), &Some(s("journal")));
    let second = store.resolve_source(&s("Le Canard"), None, &Some(s("blog")));
    assert_eq!(first, second);
    assert_eq!(store.sources.len(), 1);
    assert_eq!(store.sources[0].country_id, Some(cid));
    assert_eq!(store.sources[0].origin, Some(s("journal")));
}

#[test]
fn person_reuses_row_and_keeps_attributes() {
    let mut store = Store::new();
    let first = store.resolve_person(&s("Ada"), None, &Some(s("Dr")), &Some(s("expert")), &None);
    let second = store.resolve_person(&s("Ada"), None, &None, &None, &Some(s("judge")));
    assert_eq!(first, second);
    assert_eq!(store.people.len(), 1);
    assert_eq!(store.people[0].title, Some(s("Dr")));
    assert_eq!(store.people[0].origin, Some(s("expert")));
    assert_eq!(store.people[0].identity, None);
}

#[test]
fn article_keeps_first_timestamp() {
    let mut store = Store::new();
    let first = store.resolve_article(&s("A headline"), 1584230400);
    let second = store.resolve_article(&s("A headline"), 0);
    assert_eq!(first, second);
    assert_eq!(store.articles.len(), 1);
    assert_eq!(store.articles[0].time, 1584230400);
}

#[test]
fn duplicate_link_is_a_no_op() {
    let mut store = Store::new();
    let sid = store.resolve_source(&s("wire"), None, &None);
    let aid = store.resolve_article(&s("title"), 0);
    assert!(store.link_source_article(sid, aid));
    assert!(!store.link_source_article(sid, aid));
    assert_eq!(store.links.len(), 1);
}

#[test]
fn opinion_text_is_a_process_wide_key() {
    // The same text twice for one article and author: a no-op the second
    // time. The same text under another article or author: still a no-op,
    // because the text is the process-wide natural key.
    let mut store = Store::new();
    let author = store.resolve_person(&s("Ada"), None, &None, &None, &None);
    let other = store.resolve_person(&s("Grace"), None, &None, &None, &None);
    let a1 = store.resolve_article(&s("first"), 0);
    let a2 = store.resolve_article(&s("second"), 0);
    assert!(store.insert_opinion(author, &s("it is so"), a1));
    assert!(!store.insert_opinion(author, &s("it is so"), a1));
    assert!(!store.insert_opinion(author, &s("it is so"), a2));
    assert!(!store.insert_opinion(other, &s("it is so"), a2));
    assert_eq!(store.opinions.len(), 1);
    assert_eq!(store.opinions[0].author_id, author);
    assert_eq!(store.opinions[0].article_id, a1);
    // A different text is a distinct row.
    assert!(store.insert_opinion(other, &s("it is not"), a2));
    assert_eq!(store.opinions.len(), 2);
}
