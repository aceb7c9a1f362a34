use news_ingest::processor::process_record;
use news_ingest::schema::Opinion;
use news_ingest::schema::People;
use news_ingest::schema::Root;
use news_ingest::schema::Source;
use news_ingest::store::Store;

fn s(v: &str) -> Option<String> {
    Some(v.to_string())
}

fn named_source(name: &str) -> Source {
    let mut src = Source::default();
    src.name = s(name);
    src
}

fn record(headline: &str, source_name: &str) -> Root {
    let mut r = Root::default();
    r.headline = s(headline);
    r.source = vec![named_source(source_name)];
    r
}

#[test]
fn two_records_sharing_a_source_name() {
    // One source row, two article rows, and a link from the source to each
    // article.
    let mut store = Store::new();
    process_record(&mut store, &record("first story", "the wire"));
    process_record(&mut store, &record("second story", "the wire"));

    assert_eq!(store.sources.len(), 1);
    assert_eq!(store.sources[0].name, "the wire".to_string());
    assert_eq!(store.articles.len(), 2);
    let sid = store.sources[0].id;
    let aid1 = store.articles[0].id;
    let aid2 = store.articles[1].id;
    assert_eq!(store.links.len(), 2);
    assert_eq!(
        (store.links[0].source_id, store.links[0].article_id),
        (sid, aid1)
    );
    assert_eq!(
        (store.links[1].source_id, store.links[1].article_id),
        (sid, aid2)
    );
}

#[test]
fn full_record_resolves_in_dependency_order() {
    let mut store = Store::new();
    let mut r = Root::default();
    r.headline = s("At last");
    r.update_time = s("2020-03-15");
    let mut src = named_source("daily planet");
    src.country = s("Finland");
    src.geography = s("Europe");
    src.orob = s("x");
    src.from_journal = s("paper");
    r.source = vec![src];
    let mut p = People::default();
    p.name = s("Lois");
    p.country = s("Iceland");
    p.title = s("reporter");
    p.from_media = s("press");
    p.identity_media = s("journalist");
    p.opinion = vec![Opinion { start: 0, end: 4, text: s("fine") }];
    r.people = p;

    process_record(&mut store, &r);

    assert_eq!(store.countries.len(), 2);
    assert_eq!(store.countries[0].name, "Finland".to_string());
    assert!(store.countries[0].flag);
    assert_eq!(store.countries[1].name, "Iceland".to_string());
    assert!(!store.countries[1].flag);

    assert_eq!(store.sources.len(), 1);
    assert_eq!(store.sources[0].country_id, Some(1));
    assert_eq!(store.sources[0].origin, Some("paper".to_string()));

    assert_eq!(store.articles.len(), 1);
    assert_eq!(store.articles[0].time, 1584230400);

    assert_eq!(store.people.len(), 1);
    assert_eq!(store.people[0].country_id, Some(2));
    assert_eq!(store.people[0].origin, Some("press".to_string()));
    assert_eq!(store.people[0].identity, Some("journalist".to_string()));

    assert_eq!(store.links.len(), 1);
    assert_eq!(store.opinions.len(), 1);
    assert_eq!(store.opinions[0].text, "fine".to_string());
    assert_eq!(store.opinions[0].author_id, store.people[0].id);
    assert_eq!(store.opinions[0].article_id, store.articles[0].id);
}

#[test]
fn nameless_sub_entities_are_skipped_not_errors() {
    let mut store = Store::new();
    let mut r = Root::default();
    // No headline: no article, hence no links and no opinions.
    let mut src = named_source("lonely source");
    src.country = s("");
    r.source = vec![src, Source::default()];
    let mut p = People::default();
    p.name = s("Clark");
    p.opinion = vec![Opinion { start: 0, end: 1, text: s("lost") }];
    r.people = p;

    process_record(&mut store, &r);

    // The empty country name was skipped, the nameless source was skipped.
    assert_eq!(store.countries.len(), 0);
    assert_eq!(store.sources.len(), 1);
    assert_eq!(store.sources[0].country_id, None);
    assert_eq!(store.articles.len(), 0);
    assert_eq!(store.links.len(), 0);
    assert_eq!(store.people.len(), 1);
    assert_eq!(store.opinions.len(), 0);
}

#[test]
fn processing_the_same_record_twice_is_idempotent() {
    let mut store = Store::new();
    let mut r = record("story", "wire");
    let mut p = People::default();
    p.name = s("Ada");
    p.opinion = vec![Opinion { start: 1, end: 2, text: s("said so") }];
    r.people = p;

    process_record(&mut store, &r);
    let counts = (
        store.countries.len(),
        store.sources.len(),
        store.people.len(),
        store.articles.len(),
        store.links.len(),
        store.opinions.len(),
    );
    process_record(&mut store, &r);
    assert_eq!(
        counts,
        (
            store.countries.len(),
            store.sources.len(),
            store.people.len(),
            store.articles.len(),
            store.links.len(),
            store.opinions.len(),
        )
    );
}

#[test]
fn opinion_text_without_value_is_skipped() {
    let mut store = Store::new();
    let mut r = record("story", "wire");
    let mut p = People::default();
    p.name = s("Ada");
    p.opinion = vec![
        Opinion { start: 0, end: 0, text: None },
        Opinion { start: 0, end: 0, text: s("") },
        Opinion { start: 0, end: 0, text: s("kept") },
    ];
    r.people = p;
    process_record(&mut store, &r);
    assert_eq!(store.opinions.len(), 1);
    assert_eq!(store.opinions[0].text, "kept".to_string());
}
