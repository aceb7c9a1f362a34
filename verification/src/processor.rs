//! The record processor: one input record turned into fully-linked rows.
//!
//! Steps run in dependency order, each a create-or-reuse operation of the
//! store: every source entry (resolving its country first when one is
//! named), the article under its parsed timestamp, the person (with their
//! country and synthesized tags), then a link from every resolved source to
//! the article, and finally the person's opinions keyed by their text.
//!
//! A sub-entity without a usable natural key — an absent or empty name,
//! headline or text — is skipped, never an error, and everything that
//! depends on it is skipped with it.

use vstd::prelude::*;

use crate::dates::spec_update_seconds;
use crate::dates::update_seconds;
use crate::schema::People;
use crate::schema::Root;
use crate::schema::Source;
use crate::schema::Opinion;
use crate::schema::opt_view;
use crate::schema::spec_people_identity;
use crate::schema::spec_people_origin;
use crate::schema::spec_source_origin;
use crate::store::ArticleModel;
use crate::store::ID_LIMIT;
use crate::store::LinkModel;
use crate::store::SourceModel;
use crate::store::Store;
use crate::store::StoreModel;
use crate::store::article_upsert;
use crate::store::article_upsert_id;
use crate::store::country_upsert;
use crate::store::country_upsert_id;
use crate::store::lemma_article_upsert_wf;
use crate::store::lemma_country_upsert_wf;
use crate::store::lemma_link_insert_wf;
use crate::store::lemma_opinion_insert_wf;
use crate::store::lemma_person_upsert_wf;
use crate::store::lemma_source_upsert_wf;
use crate::store::article_count;
use crate::store::article_find;
use crate::store::lemma_article_count_unique;
use crate::store::lemma_link_find;
use crate::store::lemma_source_count_unique;
use crate::store::lemma_source_find;
use crate::store::link_find;
use crate::store::source_count;
use crate::store::source_find;
use crate::store::link_insert;
use crate::store::opinion_insert;
use crate::store::opt_id_view;
use crate::store::person_upsert;
use crate::store::person_upsert_id;
use crate::store::source_upsert;
use crate::store::source_upsert_id;

verus! {

/// The country resolution an entry performs when it names a usable country:
/// the next store and the identifier handed on, if any.
pub open spec fn do_country(
    s: StoreModel,
    country: Option<Seq<char>>,
    geography: Option<Seq<char>>,
    flag: bool,
) -> (StoreModel, Option<int>) {
    match country {
        Some(name) => if name.len() > 0 {
            (country_upsert(s, name, geography, flag), Some(country_upsert_id(s, name)))
        } else {
            (s, None)
        },
        None => (s, None),
    }
}

/// One source entry: its country, then the source row itself; skipped
/// entirely without a usable name.
pub open spec fn do_source(s: StoreModel, src: Source) -> (StoreModel, Option<int>) {
    match src.name {
        Some(name) => if name@.len() > 0 {
            let (s1, cid) = do_country(
                s,
                opt_view(src.country),
                opt_view(src.geography),
                src.orob is Some,
            );
            (
                source_upsert(s1, name@, cid, spec_source_origin(src)),
                Some(source_upsert_id(s1, name@)),
            )
        } else {
            (s, None)
        },
        None => (s, None),
    }
}

/// Every source entry in order, collecting the resolved identifiers.
pub open spec fn do_sources(s: StoreModel, srcs: Seq<Source>) -> (StoreModel, Seq<int>)
    decreases srcs.len(),
{
    if srcs.len() == 0 {
        (s, Seq::empty())
    } else {
        let (s1, ids) = do_sources(s, srcs.drop_last());
        let (s2, id) = do_source(s1, srcs.last());
        match id {
            Some(v) => (s2, ids.push(v)),
            None => (s2, ids),
        }
    }
}

/// The article under its parsed timestamp; skipped without a usable
/// headline.
pub open spec fn do_article(s: StoreModel, r: Root) -> (StoreModel, Option<int>) {
    match r.headline {
        Some(title) => if title@.len() > 0 {
            (
                article_upsert(s, title@, spec_update_seconds(opt_view(r.update_time))),
                Some(article_upsert_id(s, title@)),
            )
        } else {
            (s, None)
        },
        None => (s, None),
    }
}

/// The person: their country, then the person row with both synthesized
/// tags; skipped entirely without a usable name.
pub open spec fn do_person(s: StoreModel, p: People) -> (StoreModel, Option<int>) {
    match p.name {
        Some(name) => if name@.len() > 0 {
            let (s1, cid) = do_country(s, opt_view(p.country), opt_view(p.geography), p.orob is Some);
            (
                person_upsert(
                    s1,
                    name@,
                    cid,
                    opt_view(p.title),
                    spec_people_origin(p),
                    spec_people_identity(p),
                ),
                Some(person_upsert_id(s1, name@)),
            )
        } else {
            (s, None)
        },
        None => (s, None),
    }
}

/// Every resolved source linked to the article, in order.
pub open spec fn do_links(s: StoreModel, ids: Seq<int>, article_id: int) -> StoreModel
    decreases ids.len(),
{
    if ids.len() == 0 {
        s
    } else {
        link_insert(do_links(s, ids.drop_last(), article_id), ids.last(), article_id)
    }
}

/// Every opinion with usable text, keyed by that text.
pub open spec fn do_opinions(
    s: StoreModel,
    author_id: int,
    ops: Seq<Opinion>,
    article_id: int,
) -> StoreModel
    decreases ops.len(),
{
    if ops.len() == 0 {
        s
    } else {
        let s1 = do_opinions(s, author_id, ops.drop_last(), article_id);
        match ops.last().text {
            Some(t) => if t@.len() > 0 {
                opinion_insert(s1, author_id, t@, article_id)
            } else {
                s1
            },
            None => s1,
        }
    }
}

/// The full effect of one record: sources, article, person, links,
/// opinions — later steps dropped when what they depend on was skipped.
pub open spec fn process_record_m(s: StoreModel, r: Root) -> StoreModel {
    let (s1, source_ids) = do_sources(s, r.source@);
    let (s2, article_id) = do_article(s1, r);
    let (s3, author_id) = do_person(s2, r.people);
    match article_id {
        Some(aid) => {
            let s4 = do_links(s3, source_ids, aid);
            match author_id {
                Some(pid) => do_opinions(s4, pid, r.people.opinion@, aid),
                None => s4,
            }
        },
        None => s3,
    }
}

/// Processing one source entry touches only the country and source tables,
/// keeps the store well-formed, and hands back a valid identifier when it
/// resolved the source.
pub proof fn lemma_do_source_wf(s: StoreModel, src: Source)
    requires
        s.wf(),
    ensures
        ({
            let (s2, id) = do_source(s, src);
            &&& s2.wf()
            &&& s.countries.len() <= s2.countries.len() <= s.countries.len() + 1
            &&& s.sources.len() <= s2.sources.len() <= s.sources.len() + 1
            &&& s2.people == s.people
            &&& s2.articles == s.articles
            &&& s2.links == s.links
            &&& s2.opinions == s.opinions
            &&& match id {
                Some(v) => 1 <= v <= s2.sources.len(),
                None => s2 == s,
            }
        }),
{
    match src.name {
        Some(name) => if name@.len() > 0 {
            let (s1, cid) = do_country(
                s,
                opt_view(src.country),
                opt_view(src.geography),
                src.orob is Some,
            );
            match opt_view(src.country) {
                Some(cname) => if cname.len() > 0 {
                    lemma_country_upsert_wf(s, cname, opt_view(src.geography), src.orob is Some);
                } else {
                },
                None => {},
            }
            lemma_source_upsert_wf(s1, name@, cid, spec_source_origin(src));
        } else {
        },
        None => {},
    }
}

/// Processing a run of source entries touches only the country and source
/// tables, keeps the store well-formed, grows each by at most one row per
/// entry, and collects only valid identifiers.
pub proof fn lemma_do_sources_wf(s: StoreModel, srcs: Seq<Source>)
    requires
        s.wf(),
    ensures
        ({
            let (s1, ids) = do_sources(s, srcs);
            &&& s1.wf()
            &&& s.countries.len() <= s1.countries.len() <= s.countries.len() + srcs.len()
            &&& s.sources.len() <= s1.sources.len() <= s.sources.len() + srcs.len()
            &&& s1.people == s.people
            &&& s1.articles == s.articles
            &&& s1.links == s.links
            &&& s1.opinions == s.opinions
            &&& ids.len() <= srcs.len()
            &&& forall|k: int| 0 <= k < ids.len() ==> 1 <= #[trigger] ids[k] <= s1.sources.len()
        }),
    decreases srcs.len(),
{
    if srcs.len() > 0 {
        lemma_do_sources_wf(s, srcs.drop_last());
        let (s1, ids) = do_sources(s, srcs.drop_last());
        lemma_do_source_wf(s1, srcs.last());
    }
}

/// Processing the person touches only the country and people tables, keeps
/// the store well-formed, and hands back a valid identifier when it
/// resolved the person.
pub proof fn lemma_do_person_wf(s: StoreModel, p: People)
    requires
        s.wf(),
    ensures
        ({
            let (s2, id) = do_person(s, p);
            &&& s2.wf()
            &&& s.countries.len() <= s2.countries.len() <= s.countries.len() + 1
            &&& s.people.len() <= s2.people.len() <= s.people.len() + 1
            &&& s2.sources == s.sources
            &&& s2.articles == s.articles
            &&& s2.links == s.links
            &&& s2.opinions == s.opinions
            &&& match id {
                Some(v) => 1 <= v <= s2.people.len(),
                None => s2 == s,
            }
        }),
{
    match p.name {
        Some(name) => if name@.len() > 0 {
            let (s1, cid) = do_country(s, opt_view(p.country), opt_view(p.geography), p.orob is Some);
            match opt_view(p.country) {
                Some(cname) => if cname.len() > 0 {
                    lemma_country_upsert_wf(s, cname, opt_view(p.geography), p.orob is Some);
                } else {
                },
                None => {},
            }
            lemma_person_upsert_wf(
                s1,
                name@,
                cid,
                opt_view(p.title),
                spec_people_origin(p),
                spec_people_identity(p),
            );
        } else {
        },
        None => {},
    }
}

/// Linking touches only the link table and keeps the store well-formed.
pub proof fn lemma_do_links_wf(s: StoreModel, ids: Seq<int>, article_id: int)
    requires
        s.wf(),
        1 <= article_id <= s.articles.len(),
        forall|k: int| 0 <= k < ids.len() ==> 1 <= #[trigger] ids[k] <= s.sources.len(),
    ensures
        ({
            let s1 = do_links(s, ids, article_id);
            &&& s1.wf()
            &&& s1.countries == s.countries
            &&& s1.sources == s.sources
            &&& s1.people == s.people
            &&& s1.articles == s.articles
            &&& s1.opinions == s.opinions
        }),
    decreases ids.len(),
{
    if ids.len() > 0 {
        assert(forall|k: int|
            0 <= k < ids.len() - 1 ==> (#[trigger] ids.drop_last()[k]) == ids[k]);
        lemma_do_links_wf(s, ids.drop_last(), article_id);
        lemma_link_insert_wf(do_links(s, ids.drop_last(), article_id), ids.last(), article_id);
    }
}

/// Recording opinions touches only the opinion table, keeps the store
/// well-formed, and grows it by at most one row per opinion.
pub proof fn lemma_do_opinions_wf(s: StoreModel, author_id: int, ops: Seq<Opinion>, article_id: int)
    requires
        s.wf(),
        1 <= author_id <= s.people.len(),
        1 <= article_id <= s.articles.len(),
    ensures
        ({
            let s1 = do_opinions(s, author_id, ops, article_id);
            &&& s1.wf()
            &&& s1.countries == s.countries
            &&& s1.sources == s.sources
            &&& s1.people == s.people
            &&& s1.articles == s.articles
            &&& s1.links == s.links
            &&& s.opinions.len() <= s1.opinions.len() <= s.opinions.len() + ops.len()
        }),
    decreases ops.len(),
{
    if ops.len() > 0 {
        lemma_do_opinions_wf(s, author_id, ops.drop_last(), article_id);
        let s1 = do_opinions(s, author_id, ops.drop_last(), article_id);
        match ops.last().text {
            Some(t) => if t@.len() > 0 {
                lemma_opinion_insert_wf(s1, author_id, t@, article_id);
            } else {
            },
            None => {},
        }
    }
}

/// Room for one record: every table stays under the identifier limit
/// through each insert the record can cause.
pub open spec fn record_room(s: StoreModel, r: Root) -> bool {
    &&& s.countries.len() + r.source@.len() + 1 < ID_LIMIT
    &&& s.sources.len() + r.source@.len() < ID_LIMIT
    &&& s.people.len() < ID_LIMIT
    &&& s.articles.len() < ID_LIMIT
    &&& s.opinions.len() + r.people.opinion@.len() < ID_LIMIT
}

/// Identifier sequences seen abstractly.
pub open spec fn ids_view(v: Seq<i64>) -> Seq<int> {
    v.map_values(|x: i64| x as int)
}

/// Convert one input record into fully-linked rows, each step a
/// create-or-reuse operation, in dependency order: sources (with their
/// countries), article, person (with their country), source-article links,
/// opinions. The store afterwards is exactly `process_record_m` of the
/// store before.
pub fn process_record(store: &mut Store, record: &Root)
    requires
        old(store)@.wf(),
        record_room(old(store)@, *record),
    ensures
        final(store)@.wf(),
        final(store)@ == process_record_m(old(store)@, *record),
{
    let ghost s0 = store@;

    let mut source_ids: Vec<i64> = Vec::new();
    let n = record.source.len();
    let mut i: usize = 0;
    proof {
        assert(record.source@.take(0) =~= Seq::<Source>::empty());
    }
    while i < n
        invariant
            i <= n == record.source@.len(),
            s0.wf(),
            record_room(s0, *record),
            store@.wf(),
            store@ == do_sources(s0, record.source@.take(i as int)).0,
            ids_view(source_ids@) == do_sources(s0, record.source@.take(i as int)).1,
            s0.countries.len() <= store@.countries.len() <= s0.countries.len() + i,
            s0.sources.len() <= store@.sources.len() <= s0.sources.len() + i,
            store@.people == s0.people,
            store@.articles == s0.articles,
            store@.links == s0.links,
            store@.opinions == s0.opinions,
            forall|k: int|
                0 <= k < source_ids@.len() ==> 1 <= #[trigger] source_ids@[k]
                    <= store@.sources.len(),
        decreases n - i,
    {
        let ghost s_pre = store@;
        let ghost pre_ids = ids_view(source_ids@);
        let src = &record.source[i];
        match &src.name {
            Some(nm) => {
                if nm.as_str().is_empty() {
                } else {
                    let country_id: Option<i64> = match &src.country {
                        Some(cname) => {
                            if cname.as_str().is_empty() {
                                None
                            } else {
                                Some(
                                    store.resolve_country(
                                        cname,
                                        &src.geography,
                                        src.orob.is_some(),
                                    ),
                                )
                            }
                        },
                        None => None,
                    };
                    proof {
                        assert((store@, opt_id_view(country_id)) == do_country(
                            s_pre,
                            opt_view(src.country),
                            opt_view(src.geography),
                            src.orob is Some,
                        ));
                    }
                    let origin = src.get_from();
                    let sid = store.resolve_source(nm, country_id, &origin);
                    source_ids.push(sid);
                    proof {
                        assert(ids_view(source_ids@) =~= pre_ids.push(sid as int));
                    }
                }
            },
            None => {},
        }
        proof {
            let srcs = record.source@;
            assert(srcs.take(i + 1).drop_last() =~= srcs.take(i as int));
            assert(srcs.take(i + 1).last() == srcs[i as int]);
            assert((store@, ids_view(source_ids@)) == do_sources(s0, srcs.take(i + 1)));
        }
        i = i + 1;
    }
    proof {
        assert(record.source@.take(n as int) =~= record.source@);
    }

    let ghost s1 = store@;
    let ghost sids = ids_view(source_ids@);

    let time = update_seconds(&record.update_time);
    let article_id: Option<i64> = match &record.headline {
        Some(title) => {
            if title.as_str().is_empty() {
                None
            } else {
                Some(store.resolve_article(title, time))
            }
        },
        None => None,
    };
    proof {
        assert((store@, opt_id_view(article_id)) == do_article(s1, *record));
    }

    let ghost s2 = store@;

    let people = &record.people;
    let author_id: Option<i64> = match &people.name {
        Some(nm) => {
            if nm.as_str().is_empty() {
                None
            } else {
                let p_country: Option<i64> = match &people.country {
                    Some(cname) => {
                        if cname.as_str().is_empty() {
                            None
                        } else {
                            Some(
                                store.resolve_country(
                                    cname,
                                    &people.geography,
                                    people.orob.is_some(),
                                ),
                            )
                        }
                    },
                    None => None,
                };
                proof {
                    assert((store@, opt_id_view(p_country)) == do_country(
                        s2,
                        opt_view(people.country),
                        opt_view(people.geography),
                        people.orob is Some,
                    ));
                }
                let origin = people.get_from();
                let identity = people.get_identity();
                Some(store.resolve_person(nm, p_country, &people.title, &origin, &identity))
            }
        },
        None => None,
    };
    proof {
        assert((store@, opt_id_view(author_id)) == do_person(s2, record.people));
    }

    let ghost s3 = store@;

    if let Some(aid) = article_id {
        let m = source_ids.len();
        let mut j: usize = 0;
        proof {
            assert(sids.take(0) =~= Seq::<int>::empty());
        }
        while j < m
            invariant
                j <= m == source_ids@.len(),
                sids == ids_view(source_ids@),
                s3.wf(),
                store@.wf(),
                store@ == do_links(s3, sids.take(j as int), aid as int),
                store@.countries == s3.countries,
                store@.sources == s3.sources,
                store@.people == s3.people,
                store@.articles == s3.articles,
                store@.opinions == s3.opinions,
                forall|k: int|
                    0 <= k < source_ids@.len() ==> 1 <= #[trigger] source_ids@[k]
                        <= s3.sources.len(),
                1 <= aid as int <= s3.articles.len(),
            decreases m - j,
        {
            let sid = source_ids[j];
            store.link_source_article(sid, aid);
            proof {
                assert(sids.take(j + 1).drop_last() =~= sids.take(j as int));
                assert(sids.take(j + 1).last() == sids[j as int]);
            }
            j = j + 1;
        }
        proof {
            assert(sids.take(m as int) =~= sids);
        }

        if let Some(pid) = author_id {
            let ghost s4 = store@;
            let q = record.people.opinion.len();
            let mut t: usize = 0;
            proof {
                assert(record.people.opinion@.take(0) =~= Seq::<Opinion>::empty());
            }
            while t < q
                invariant
                    t <= q == record.people.opinion@.len(),
                    s4.wf(),
                    store@.wf(),
                    store@ == do_opinions(
                        s4,
                        pid as int,
                        record.people.opinion@.take(t as int),
                        aid as int,
                    ),
                    store@.countries == s4.countries,
                    store@.sources == s4.sources,
                    store@.people == s4.people,
                    store@.articles == s4.articles,
                    store@.links == s4.links,
                    s4.opinions.len() <= store@.opinions.len() <= s4.opinions.len() + t,
                    s4.opinions.len() + q < ID_LIMIT,
                    1 <= pid as int <= s4.people.len(),
                    1 <= aid as int <= s4.articles.len(),
                decreases q - t,
            {
                let op = &record.people.opinion[t];
                match &op.text {
                    Some(txt) => {
                        if txt.as_str().is_empty() {
                        } else {
                            store.insert_opinion(pid, txt, aid);
                        }
                    },
                    None => {},
                }
                proof {
                    let ops = record.people.opinion@;
                    assert(ops.take(t + 1).drop_last() =~= ops.take(t as int));
                    assert(ops.take(t + 1).last() == ops[t as int]);
                }
                t = t + 1;
            }
            proof {
                assert(record.people.opinion@.take(q as int) =~= record.people.opinion@);
            }
        }
    }
    proof {
        assert(store@ == process_record_m(s0, *record));
    }
}

/// A link stays found when another link is pushed behind it.
proof fn lemma_link_find_push(links: Seq<LinkModel>, l: LinkModel, a: int, b: int)
    ensures
        link_find(links.push(l), a, b) == if l.source_id == a && l.article_id == b {
            links.len() as int
        } else {
            link_find(links, a, b)
        },
{
    assert(links.push(l).drop_last() =~= links);
}

/// Law (end to end): when two records share one source name and carry two
/// distinct fresh headlines, processing both — in either role — leaves
/// exactly one source row for the name, one article row per headline, and a
/// link from that one source to each of the two articles.
pub proof fn lemma_shared_source_two_articles(
    s0: StoreModel,
    r1: Root,
    r2: Root,
    src1: Source,
    src2: Source,
    name: Seq<char>,
    t1: Seq<char>,
    t2: Seq<char>,
)
    requires
        s0.wf(),
        r1.source@ == seq![src1],
        r2.source@ == seq![src2],
        opt_view(src1.name) == Some(name),
        opt_view(src2.name) == Some(name),
        name.len() > 0,
        opt_view(r1.headline) == Some(t1),
        opt_view(r2.headline) == Some(t2),
        t1.len() > 0,
        t2.len() > 0,
        t1 != t2,
        source_find(s0.sources, name) == -1,
        article_find(s0.articles, t1) == -1,
        article_find(s0.articles, t2) == -1,
    ensures
        ({
            let s2 = process_record_m(process_record_m(s0, r1), r2);
            let sid = s0.sources.len() as int + 1;
            let aid1 = s0.articles.len() as int + 1;
            let aid2 = s0.articles.len() as int + 2;
            &&& s2.wf()
            &&& source_count(s2.sources, name) == 1
            &&& article_count(s2.articles, t1) == 1
            &&& article_count(s2.articles, t2) == 1
            &&& source_find(s2.sources, name) >= 0
            &&& s2.sources[source_find(s2.sources, name)].id == sid
            &&& article_find(s2.articles, t1) >= 0
            &&& s2.articles[article_find(s2.articles, t1)].id == aid1
            &&& article_find(s2.articles, t2) >= 0
            &&& s2.articles[article_find(s2.articles, t2)].id == aid2
            &&& link_find(s2.links, sid, aid1) >= 0
            &&& link_find(s2.links, sid, aid2) >= 0
        }),
{
    let sid = s0.sources.len() as int + 1;
    let aid1 = s0.articles.len() as int + 1;
    let aid2 = s0.articles.len() as int + 2;

    // First record: its one source entry is fresh.
    assert(r1.source@.drop_last() =~= Seq::<Source>::empty());
    assert(do_sources(s0, Seq::<Source>::empty()) == (s0, Seq::<int>::empty()));
    assert(r1.source@.last() == src1);
    let (sa, cid1) = do_country(
        s0,
        opt_view(src1.country),
        opt_view(src1.geography),
        src1.orob is Some,
    );
    match opt_view(src1.country) {
        Some(cn) => if cn.len() > 0 {
            lemma_country_upsert_wf(s0, cn, opt_view(src1.geography), src1.orob is Some);
        } else {
        },
        None => {},
    }
    assert(sa.sources == s0.sources);
    lemma_source_find(sa.sources, name);
    let sb = source_upsert(sa, name, cid1, spec_source_origin(src1));
    lemma_source_upsert_wf(sa, name, cid1, spec_source_origin(src1));
    assert(sb.sources == s0.sources.push(
        SourceModel {
            id: sid,
            name,
            country_id: cid1,
            origin: spec_source_origin(src1),
        },
    ));
    assert((sb, seq![sid]) == do_sources(s0, r1.source@)) by {
        assert(source_upsert_id(sa, name) == sid);
        assert(Seq::<int>::empty().push(sid) =~= seq![sid]);
    }

    // Its article is fresh.
    assert(sb.articles == s0.articles);
    let sc = article_upsert(sb, t1, spec_update_seconds(opt_view(r1.update_time)));
    lemma_article_upsert_wf(sb, t1, spec_update_seconds(opt_view(r1.update_time)));
    assert((sc, Some(aid1)) == do_article(sb, r1));
    assert(sc.articles == s0.articles.push(
        ArticleModel { id: aid1, title: t1, time: spec_update_seconds(opt_view(r1.update_time)) },
    ));

    // Its person touches neither sources, articles nor links.
    lemma_do_person_wf(sc, r1.people);
    let (sd, author1) = do_person(sc, r1.people);
    assert(sd.sources == sc.sources && sd.articles == sc.articles && sd.links == s0.links);

    // The one link it writes is fresh: every earlier link names an earlier
    // source.
    lemma_link_find(sd.links, sid, aid1);
    assert(link_find(sd.links, sid, aid1) == -1);
    assert(seq![sid].drop_last() =~= Seq::<int>::empty());
    assert(do_links(sd, Seq::<int>::empty(), aid1) == sd);
    let se = link_insert(sd, sid, aid1);
    assert(se == do_links(sd, seq![sid], aid1));
    let l1 = LinkModel { source_id: sid, article_id: aid1 };
    assert(se.links == s0.links.push(l1));
    lemma_link_insert_wf(sd, sid, aid1);

    // Its opinions touch only the opinion table.
    let s1 = process_record_m(s0, r1);
    assert(s1.sources == se.sources && s1.articles == se.articles && s1.links == se.links && s1.wf())
        by {
        match author1 {
            Some(pid) => {
                lemma_do_opinions_wf(se, pid, r1.people.opinion@, aid1);
            },
            None => {},
        }
    }

    // Second record: its source entry resolves to the row the first wrote.
    assert(r2.source@.drop_last() =~= Seq::<Source>::empty());
    assert(do_sources(s1, Seq::<Source>::empty()) == (s1, Seq::<int>::empty()));
    assert(r2.source@.last() == src2);
    let (sf, cid2) = do_country(
        s1,
        opt_view(src2.country),
        opt_view(src2.geography),
        src2.orob is Some,
    );
    match opt_view(src2.country) {
        Some(cn) => if cn.len() > 0 {
            lemma_country_upsert_wf(s1, cn, opt_view(src2.geography), src2.orob is Some);
        } else {
        },
        None => {},
    }
    assert(sf.sources == s1.sources && sf.articles == s1.articles && sf.links == s1.links);
    assert(sf.sources.last().name == name);
    assert(source_find(sf.sources, name) == sf.sources.len() - 1);
    let sg = source_upsert(sf, name, cid2, spec_source_origin(src2));
    assert(sg == sf);
    assert(source_upsert_id(sf, name) == sid);
    assert((sg, seq![sid]) == do_sources(s1, r2.source@)) by {
        assert(Seq::<int>::empty().push(sid) =~= seq![sid]);
    }

    // Its article is fresh: distinct from the first title and from
    // everything older.
    assert(sg.articles == s0.articles.push(
        ArticleModel { id: aid1, title: t1, time: spec_update_seconds(opt_view(r1.update_time)) },
    ));
    assert(sg.articles.last().title == t1);
    assert(sg.articles.drop_last() =~= s0.articles);
    assert(article_find(sg.articles, t2) == -1);
    let sh = article_upsert(sg, t2, spec_update_seconds(opt_view(r2.update_time)));
    lemma_article_upsert_wf(sg, t2, spec_update_seconds(opt_view(r2.update_time)));
    assert(sh.articles.len() == s0.articles.len() + 2);
    assert(article_upsert_id(sg, t2) == aid2);
    assert((sh, Some(aid2)) == do_article(sg, r2));

    lemma_do_person_wf(sh, r2.people);
    let (si, author2) = do_person(sh, r2.people);
    assert(si.sources == sh.sources && si.articles == sh.articles && si.links == sh.links);

    // The second link is new: the pair differs from the first link in its
    // article and from every older link in its source.
    lemma_link_find(si.links, sid, aid2);
    lemma_link_find_push(s0.links, l1, sid, aid2);
    assert(si.links == s0.links.push(l1));
    assert(link_find(si.links, sid, aid2) == -1) by {
        assert(forall|i: int|
            0 <= i < s0.links.len() ==> (#[trigger] s0.links[i]).source_id <= s0.sources.len());
    }
    let sj = link_insert(si, sid, aid2);
    assert(seq![sid].drop_last() =~= Seq::<int>::empty());
    assert(do_links(si, Seq::<int>::empty(), aid2) == si);
    assert(sj == do_links(si, seq![sid], aid2));
    let l2 = LinkModel { source_id: sid, article_id: aid2 };
    assert(sj.links == s0.links.push(l1).push(l2));
    lemma_link_insert_wf(si, sid, aid2);

    let s2 = process_record_m(s1, r2);
    assert(s2.sources == sj.sources && s2.articles == sj.articles && s2.links == sj.links && s2.wf())
        by {
        match author2 {
            Some(pid) => {
                lemma_do_opinions_wf(sj, pid, r2.people.opinion@, aid2);
            },
            None => {},
        }
    }

    // Counts and identifiers, read off the final state.
    assert(s2.sources.last().name == name);
    assert(source_find(s2.sources, name) == s2.sources.len() - 1);
    lemma_source_count_unique(s2.sources, name);

    assert(s2.articles.last().title == t2);
    assert(article_find(s2.articles, t2) == s2.articles.len() - 1);
    assert(s2.articles.drop_last() =~= sg.articles);
    assert(article_find(s2.articles, t1) == sg.articles.len() - 1) by {
        assert(sg.articles.last().title == t1);
    }
    lemma_article_count_unique(s2.articles, t1);
    lemma_article_count_unique(s2.articles, t2);

    lemma_link_find_push(s0.links.push(l1), l2, sid, aid1);
    lemma_link_find_push(s0.links, l1, sid, aid1);
    lemma_link_find_push(s0.links.push(l1), l2, sid, aid2);
    assert(link_find(s2.links, sid, aid2) == s0.links.len() + 1);
    assert(link_find(s2.links, sid, aid1) == s0.links.len() as int);
}

} // verus!
