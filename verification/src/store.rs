//! The model store: the relational backend's visible behaviour.
//!
//! Each table holds rows with a surrogate identifier assigned at first
//! successful insert; a natural key (a country's, source's or person's name,
//! an article's title, an opinion's text, a link's pair of identifiers)
//! uniquely determines the row. Every operation is create-or-reuse: an
//! insert of an existing key is a no-op that converges on the row already
//! there, which is exactly how the backend's unique constraints serialize
//! racing inserts. Rows are never updated or deleted here.
//!
//! Identifiers are positions: the row with identifier `k` is the table's
//! `k`-th row. Callers never mint identifiers; the resolver does.

use vstd::prelude::*;

use crate::schema::opt_view;

verus! {

/// No table grows past this many rows, so that the next identifier always
/// fits in a signed 64-bit column.
pub const ID_LIMIT: u64 = 0x7fff_ffff_ffff_ffff;

/// The view of an optional identifier column.
pub open spec fn opt_id_view(o: Option<i64>) -> Option<int> {
    match o {
        Some(v) => Some(v as int),
        None => None,
    }
}

#[derive(Debug)]
pub struct CountryRow {
    pub id: i64,
    pub name: String,
    pub geography: Option<String>,
    pub flag: bool,
}

pub ghost struct CountryModel {
    pub id: int,
    pub name: Seq<char>,
    pub geography: Option<Seq<char>>,
    pub flag: bool,
}

impl View for CountryRow {
    type V = CountryModel;

    open spec fn view(&self) -> CountryModel {
        CountryModel {
            id: self.id as int,
            name: self.name@,
            geography: opt_view(self.geography),
            flag: self.flag,
        }
    }
}

#[derive(Debug)]
pub struct SourceRow {
    pub id: i64,
    pub name: String,
    pub country_id: Option<i64>,
    pub origin: Option<String>,
}

pub ghost struct SourceModel {
    pub id: int,
    pub name: Seq<char>,
    pub country_id: Option<int>,
    pub origin: Option<Seq<char>>,
}

impl View for SourceRow {
    type V = SourceModel;

    open spec fn view(&self) -> SourceModel {
        SourceModel {
            id: self.id as int,
            name: self.name@,
            country_id: opt_id_view(self.country_id),
            origin: opt_view(self.origin),
        }
    }
}

#[derive(Debug)]
pub struct PersonRow {
    pub id: i64,
    pub name: String,
    pub country_id: Option<i64>,
    pub title: Option<String>,
    pub origin: Option<String>,
    pub identity: Option<String>,
}

pub ghost struct PersonModel {
    pub id: int,
    pub name: Seq<char>,
    pub country_id: Option<int>,
    pub title: Option<Seq<char>>,
    pub origin: Option<Seq<char>>,
    pub identity: Option<Seq<char>>,
}

impl View for PersonRow {
    type V = PersonModel;

    open spec fn view(&self) -> PersonModel {
        PersonModel {
            id: self.id as int,
            name: self.name@,
            country_id: opt_id_view(self.country_id),
            title: opt_view(self.title),
            origin: opt_view(self.origin),
            identity: opt_view(self.identity),
        }
    }
}

#[derive(Debug)]
pub struct ArticleRow {
    pub id: i64,
    pub title: String,
    pub time: i64,
}

pub ghost struct ArticleModel {
    pub id: int,
    pub title: Seq<char>,
    pub time: int,
}

impl View for ArticleRow {
    type V = ArticleModel;

    open spec fn view(&self) -> ArticleModel {
        ArticleModel { id: self.id as int, title: self.title@, time: self.time as int }
    }
}

#[derive(Debug)]
pub struct LinkRow {
    pub source_id: i64,
    pub article_id: i64,
}

pub ghost struct LinkModel {
    pub source_id: int,
    pub article_id: int,
}

impl View for LinkRow {
    type V = LinkModel;

    open spec fn view(&self) -> LinkModel {
        LinkModel { source_id: self.source_id as int, article_id: self.article_id as int }
    }
}

#[derive(Debug)]
pub struct OpinionRow {
    pub id: i64,
    pub author_id: i64,
    pub text: String,
    pub article_id: i64,
}

pub ghost struct OpinionModel {
    pub id: int,
    pub author_id: int,
    pub text: Seq<char>,
    pub article_id: int,
}

impl View for OpinionRow {
    type V = OpinionModel;

    open spec fn view(&self) -> OpinionModel {
        OpinionModel {
            id: self.id as int,
            author_id: self.author_id as int,
            text: self.text@,
            article_id: self.article_id as int,
        }
    }
}

/// The abstract state of the six tables.
pub ghost struct StoreModel {
    pub countries: Seq<CountryModel>,
    pub sources: Seq<SourceModel>,
    pub people: Seq<PersonModel>,
    pub articles: Seq<ArticleModel>,
    pub links: Seq<LinkModel>,
    pub opinions: Seq<OpinionModel>,
}

impl StoreModel {
    /// The store's invariant: identifiers are positions, natural keys are
    /// unique and non-empty, and links and opinions reference rows that
    /// exist.
    pub open spec fn wf(self) -> bool {
        &&& forall|i: int|
            0 <= i < self.countries.len() ==> (#[trigger] self.countries[i]).id == i + 1
                && self.countries[i].name.len() > 0
        &&& forall|i: int, j: int|
            0 <= i < j < self.countries.len() ==> (#[trigger] self.countries[i]).name != (
            #[trigger] self.countries[j]).name
        &&& forall|i: int|
            0 <= i < self.sources.len() ==> (#[trigger] self.sources[i]).id == i + 1
                && self.sources[i].name.len() > 0 && match self.sources[i].country_id {
                Some(c) => 1 <= c <= self.countries.len(),
                None => true,
            }
        &&& forall|i: int, j: int|
            0 <= i < j < self.sources.len() ==> (#[trigger] self.sources[i]).name != (
            #[trigger] self.sources[j]).name
        &&& forall|i: int|
            0 <= i < self.people.len() ==> (#[trigger] self.people[i]).id == i + 1
                && self.people[i].name.len() > 0 && match self.people[i].country_id {
                Some(c) => 1 <= c <= self.countries.len(),
                None => true,
            }
        &&& forall|i: int, j: int|
            0 <= i < j < self.people.len() ==> (#[trigger] self.people[i]).name != (
            #[trigger] self.people[j]).name
        &&& forall|i: int|
            0 <= i < self.articles.len() ==> (#[trigger] self.articles[i]).id == i + 1
                && self.articles[i].title.len() > 0
        &&& forall|i: int, j: int|
            0 <= i < j < self.articles.len() ==> (#[trigger] self.articles[i]).title != (
            #[trigger] self.articles[j]).title
        &&& forall|i: int|
            0 <= i < self.links.len() ==> 1 <= (#[trigger] self.links[i]).source_id
                <= self.sources.len() && 1 <= self.links[i].article_id <= self.articles.len()
        &&& forall|i: int, j: int|
            0 <= i < j < self.links.len() ==> !((#[trigger] self.links[i]).source_id == (
            #[trigger] self.links[j]).source_id && self.links[i].article_id
                == self.links[j].article_id)
        &&& forall|i: int|
            0 <= i < self.opinions.len() ==> (#[trigger] self.opinions[i]).id == i + 1
                && self.opinions[i].text.len() > 0 && 1 <= self.opinions[i].author_id
                <= self.people.len() && 1 <= self.opinions[i].article_id <= self.articles.len()
        &&& forall|i: int, j: int|
            0 <= i < j < self.opinions.len() ==> (#[trigger] self.opinions[i]).text != (
            #[trigger] self.opinions[j]).text
    }
}

/// The in-memory store. Its view is the abstract table state.
#[derive(Debug)]
pub struct Store {
    pub countries: Vec<CountryRow>,
    pub sources: Vec<SourceRow>,
    pub people: Vec<PersonRow>,
    pub articles: Vec<ArticleRow>,
    pub links: Vec<LinkRow>,
    pub opinions: Vec<OpinionRow>,
}

impl View for Store {
    type V = StoreModel;

    open spec fn view(&self) -> StoreModel {
        StoreModel {
            countries: self.countries@.map_values(|r: CountryRow| r@),
            sources: self.sources@.map_values(|r: SourceRow| r@),
            people: self.people@.map_values(|r: PersonRow| r@),
            articles: self.articles@.map_values(|r: ArticleRow| r@),
            links: self.links@.map_values(|r: LinkRow| r@),
            opinions: self.opinions@.map_values(|r: OpinionRow| r@),
        }
    }
}

/// The position of the row named `name`, or -1 when no row has that name.
pub open spec fn country_find(rows: Seq<CountryModel>, name: Seq<char>) -> int
    decreases rows.len(),
{
    if rows.len() == 0 {
        -1
    } else if rows.last().name == name {
        rows.len() - 1
    } else {
        country_find(rows.drop_last(), name)
    }
}

pub proof fn lemma_country_find(rows: Seq<CountryModel>, name: Seq<char>)
    ensures
        country_find(rows, name) == -1 <==> (forall|i: int|
            0 <= i < rows.len() ==> (#[trigger] rows[i]).name != name),
        country_find(rows, name) != -1 ==> 0 <= country_find(rows, name) < rows.len() && rows[
            country_find(rows, name)
        ].name == name,
    decreases rows.len(),
{
    if rows.len() > 0 && rows.last().name != name {
        lemma_country_find(rows.drop_last(), name);
        assert(forall|i: int|
            0 <= i < rows.len() - 1 ==> (#[trigger] rows[i]) == rows.drop_last()[i]);
    }
}

/// Insert-or-ignore on the country table.
pub open spec fn country_upsert(
    s: StoreModel,
    name: Seq<char>,
    geography: Option<Seq<char>>,
    flag: bool,
) -> StoreModel {
    if country_find(s.countries, name) >= 0 {
        s
    } else {
        StoreModel {
            countries: s.countries.push(
                CountryModel { id: s.countries.len() as int + 1, name, geography, flag },
            ),
            ..s
        }
    }
}

/// The identifier the country resolver returns for `name`.
pub open spec fn country_upsert_id(s: StoreModel, name: Seq<char>) -> int {
    if country_find(s.countries, name) >= 0 {
        s.countries[country_find(s.countries, name)].id
    } else {
        s.countries.len() as int + 1
    }
}

pub proof fn lemma_country_upsert_wf(
    s: StoreModel,
    name: Seq<char>,
    geography: Option<Seq<char>>,
    flag: bool,
)
    requires
        s.wf(),
        name.len() > 0,
    ensures
        country_upsert(s, name, geography, flag).wf(),
        country_find(country_upsert(s, name, geography, flag).countries, name) >= 0,
        country_upsert_id(s, name) == country_upsert(s, name, geography, flag).countries[
            country_find(country_upsert(s, name, geography, flag).countries, name)
        ].id,
        1 <= country_upsert_id(s, name) <= country_upsert(s, name, geography, flag).countries.len(),
{
    lemma_country_find(s.countries, name);
    let s1 = country_upsert(s, name, geography, flag);
    if country_find(s.countries, name) >= 0 {
    } else {
        assert(s1.countries.last().name == name);
        assert(s1.countries.drop_last() =~= s.countries);
    }
}

fn find_country(rows: &Vec<CountryRow>, name: &String) -> (r: Option<usize>)
    ensures
        match r {
            Some(i) => i < rows@.len() && rows@[i as int]@.name == name@,
            None => forall|j: int| 0 <= j < rows@.len() ==> (#[trigger] rows@[j]@).name != name@,
        },
{
    let n = rows.len();
    let mut i: usize = 0;
    while i < n
        invariant
            i <= n == rows@.len(),
            forall|j: int| 0 <= j < i ==> (#[trigger] rows@[j]@).name != name@,
        decreases n - i,
    {
        if rows[i].name == *name {
            return Some(i);
        }
        i = i + 1;
    }
    None
}

impl Store {
    /// An empty store: no table has any row.
    pub fn new() -> (s: Store)
        ensures
            s@.wf(),
            s@.countries =~= Seq::<CountryModel>::empty(),
            s@.sources =~= Seq::<SourceModel>::empty(),
            s@.people =~= Seq::<PersonModel>::empty(),
            s@.articles =~= Seq::<ArticleModel>::empty(),
            s@.links =~= Seq::<LinkModel>::empty(),
            s@.opinions =~= Seq::<OpinionModel>::empty(),
    {
        Store {
            countries: Vec::new(),
            sources: Vec::new(),
            people: Vec::new(),
            articles: Vec::new(),
            links: Vec::new(),
            opinions: Vec::new(),
        }
    }

    /// Resolve a country by name: reuse the row with that name when one
    /// exists — never touching its attributes — and insert one otherwise.
    /// Returns the row's identifier either way.
    pub fn resolve_country(&mut self, name: &String, geography: &Option<String>, flag: bool) -> (id:
        i64)
        requires
            old(self)@.wf(),
            name@.len() > 0,
            old(self)@.countries.len() < ID_LIMIT,
        ensures
            final(self)@.wf(),
            final(self)@ == country_upsert(old(self)@, name@, opt_view(*geography), flag),
            id == country_upsert_id(old(self)@, name@),
            1 <= id <= final(self)@.countries.len(),
    {
        proof {
            lemma_country_find(self@.countries, name@);
            lemma_country_upsert_wf(self@, name@, opt_view(*geography), flag);
        }
        match find_country(&self.countries, name) {
            Some(i) => {
                let id = self.countries[i].id;
                proof {
                    let k = country_find(self@.countries, name@);
                    assert(self@.countries[i as int].name == name@);
                    assert(self@.countries[k].name == name@);
                    assert(k == i as int);
                }
                id
            },
            None => {
                assert(country_find(self@.countries, name@) == -1);
                let id: i64 = (self.countries.len() as i64) + 1;
                let row = CountryRow {
                    id,
                    name: name.clone(),
                    geography: match geography {
                        Some(g) => Some(g.clone()),
                        None => None,
                    },
                    flag,
                };
                proof {
                    assert(row@ == CountryModel {
                        id: old(self)@.countries.len() as int + 1,
                        name: name@,
                        geography: opt_view(*geography),
                        flag,
                    });
                }
                self.countries.push(row);
                proof {
                    assert(self.countries@.map_values(|r: CountryRow| r@) =~= old(
                        self,
                    ).countries@.map_values(|r: CountryRow| r@).push(row@));
                    assert(self@ == country_upsert(old(self)@, name@, opt_view(*geography), flag));
                }
                id
            },
        }
    }
}
/// The position of the source row named `name`, or -1 when no row has that
/// name.
pub open spec fn source_find(rows: Seq<SourceModel>, name: Seq<char>) -> int
    decreases rows.len(),
{
    if rows.len() == 0 {
        -1
    } else if rows.last().name == name {
        rows.len() - 1
    } else {
        source_find(rows.drop_last(), name)
    }
}

pub proof fn lemma_source_find(rows: Seq<SourceModel>, name: Seq<char>)
    ensures
        source_find(rows, name) == -1 <==> (forall|i: int|
            0 <= i < rows.len() ==> (#[trigger] rows[i]).name != name),
        source_find(rows, name) != -1 ==> 0 <= source_find(rows, name) < rows.len() && rows[
            source_find(rows, name)
        ].name == name,
    decreases rows.len(),
{
    if rows.len() > 0 && rows.last().name != name {
        lemma_source_find(rows.drop_last(), name);
        assert(forall|i: int|
            0 <= i < rows.len() - 1 ==> (#[trigger] rows[i]) == rows.drop_last()[i]);
    }
}

/// Insert-or-ignore on the source table: an existing row keeps its
/// attributes, whatever the new payload says.
pub open spec fn source_upsert(
    s: StoreModel,
    name: Seq<char>,
    country_id: Option<int>,
    origin: Option<Seq<char>>,
) -> StoreModel {
    if source_find(s.sources, name) >= 0 {
        s
    } else {
        StoreModel {
            sources: s.sources.push(
                SourceModel { id: s.sources.len() as int + 1, name, country_id, origin },
            ),
            ..s
        }
    }
}

/// The identifier the source resolver returns for `name`.
pub open spec fn source_upsert_id(s: StoreModel, name: Seq<char>) -> int {
    if source_find(s.sources, name) >= 0 {
        s.sources[source_find(s.sources, name)].id
    } else {
        s.sources.len() as int + 1
    }
}

pub proof fn lemma_source_upsert_wf(
    s: StoreModel,
    name: Seq<char>,
    country_id: Option<int>,
    origin: Option<Seq<char>>,
)
    requires
        s.wf(),
        name.len() > 0,
        match country_id {
            Some(c) => 1 <= c <= s.countries.len(),
            None => true,
        },
    ensures
        source_upsert(s, name, country_id, origin).wf(),
        source_find(source_upsert(s, name, country_id, origin).sources, name) >= 0,
        source_upsert_id(s, name) == source_upsert(s, name, country_id, origin).sources[
            source_find(source_upsert(s, name, country_id, origin).sources, name)
        ].id,
        1 <= source_upsert_id(s, name) <= source_upsert(s, name, country_id, origin).sources.len(),
{
    lemma_source_find(s.sources, name);
    let s1 = source_upsert(s, name, country_id, origin);
    if source_find(s.sources, name) >= 0 {
    } else {
        assert(s1.sources.last().name == name);
        assert(s1.sources.drop_last() =~= s.sources);
    }
}

fn find_source(rows: &Vec<SourceRow>, name: &String) -> (r: Option<usize>)
    ensures
        match r {
            Some(i) => i < rows@.len() && rows@[i as int]@.name == name@,
            None => forall|j: int| 0 <= j < rows@.len() ==> (#[trigger] rows@[j]@).name != name@,
        },
{
    let n = rows.len();
    let mut i: usize = 0;
    while i < n
        invariant
            i <= n == rows@.len(),
            forall|j: int| 0 <= j < i ==> (#[trigger] rows@[j]@).name != name@,
        decreases n - i,
    {
        if rows[i].name == *name {
            return Some(i);
        }
        i = i + 1;
    }
    None
}

/// The position of the person row named `name`, or -1 when no row has that
/// name.
pub open spec fn person_find(rows: Seq<PersonModel>, name: Seq<char>) -> int
    decreases rows.len(),
{
    if rows.len() == 0 {
        -1
    } else if rows.last().name == name {
        rows.len() - 1
    } else {
        person_find(rows.drop_last(), name)
    }
}

pub proof fn lemma_person_find(rows: Seq<PersonModel>, name: Seq<char>)
    ensures
        person_find(rows, name) == -1 <==> (forall|i: int|
            0 <= i < rows.len() ==> (#[trigger] rows[i]).name != name),
        person_find(rows, name) != -1 ==> 0 <= person_find(rows, name) < rows.len() && rows[
            person_find(rows, name)
        ].name == name,
    decreases rows.len(),
{
    if rows.len() > 0 && rows.last().name != name {
        lemma_person_find(rows.drop_last(), name);
        assert(forall|i: int|
            0 <= i < rows.len() - 1 ==> (#[trigger] rows[i]) == rows.drop_last()[i]);
    }
}

/// Insert-or-ignore on the people table.
pub open spec fn person_upsert(
    s: StoreModel,
    name: Seq<char>,
    country_id: Option<int>,
    title: Option<Seq<char>>,
    origin: Option<Seq<char>>,
    identity: Option<Seq<char>>,
) -> StoreModel {
    if person_find(s.people, name) >= 0 {
        s
    } else {
        StoreModel {
            people: s.people.push(
                PersonModel {
                    id: s.people.len() as int + 1,
                    name,
                    country_id,
                    title,
                    origin,
                    identity,
                },
            ),
            ..s
        }
    }
}

/// The identifier the person resolver returns for `name`.
pub open spec fn person_upsert_id(s: StoreModel, name: Seq<char>) -> int {
    if person_find(s.people, name) >= 0 {
        s.people[person_find(s.people, name)].id
    } else {
        s.people.len() as int + 1
    }
}

pub proof fn lemma_person_upsert_wf(
    s: StoreModel,
    name: Seq<char>,
    country_id: Option<int>,
    title: Option<Seq<char>>,
    origin: Option<Seq<char>>,
    identity: Option<Seq<char>>,
)
    requires
        s.wf(),
        name.len() > 0,
        match country_id {
            Some(c) => 1 <= c <= s.countries.len(),
            None => true,
        },
    ensures
        person_upsert(s, name, country_id, title, origin, identity).wf(),
        person_find(person_upsert(s, name, country_id, title, origin, identity).people, name) >= 0,
        person_upsert_id(s, name) == person_upsert(s, name, country_id, title, origin, identity).people[
            person_find(person_upsert(s, name, country_id, title, origin, identity).people, name)
        ].id,
        1 <= person_upsert_id(s, name) <= person_upsert(
            s,
            name,
            country_id,
            title,
            origin,
            identity,
        ).people.len(),
{
    lemma_person_find(s.people, name);
    let s1 = person_upsert(s, name, country_id, title, origin, identity);
    if person_find(s.people, name) >= 0 {
    } else {
        assert(s1.people.last().name == name);
        assert(s1.people.drop_last() =~= s.people);
    }
}

fn find_person(rows: &Vec<PersonRow>, name: &String) -> (r: Option<usize>)
    ensures
        match r {
            Some(i) => i < rows@.len() && rows@[i as int]@.name == name@,
            None => forall|j: int| 0 <= j < rows@.len() ==> (#[trigger] rows@[j]@).name != name@,
        },
{
    let n = rows.len();
    let mut i: usize = 0;
    while i < n
        invariant
            i <= n == rows@.len(),
            forall|j: int| 0 <= j < i ==> (#[trigger] rows@[j]@).name != name@,
        decreases n - i,
    {
        if rows[i].name == *name {
            return Some(i);
        }
        i = i + 1;
    }
    None
}

/// The position of the article row titled `title`, or -1 when no row has
/// that title.
pub open spec fn article_find(rows: Seq<ArticleModel>, title: Seq<char>) -> int
    decreases rows.len(),
{
    if rows.len() == 0 {
        -1
    } else if rows.last().title == title {
        rows.len() - 1
    } else {
        article_find(rows.drop_last(), title)
    }
}

pub proof fn lemma_article_find(rows: Seq<ArticleModel>, title: Seq<char>)
    ensures
        article_find(rows, title) == -1 <==> (forall|i: int|
            0 <= i < rows.len() ==> (#[trigger] rows[i]).title != title),
        article_find(rows, title) != -1 ==> 0 <= article_find(rows, title) < rows.len() && rows[
            article_find(rows, title)
        ].title == title,
    decreases rows.len(),
{
    if rows.len() > 0 && rows.last().title != title {
        lemma_article_find(rows.drop_last(), title);
        assert(forall|i: int|
            0 <= i < rows.len() - 1 ==> (#[trigger] rows[i]) == rows.drop_last()[i]);
    }
}

/// Insert-or-ignore on the article table: an existing title keeps its
/// original timestamp.
pub open spec fn article_upsert(s: StoreModel, title: Seq<char>, time: int) -> StoreModel {
    if article_find(s.articles, title) >= 0 {
        s
    } else {
        StoreModel {
            articles: s.articles.push(
                ArticleModel { id: s.articles.len() as int + 1, title, time },
            ),
            ..s
        }
    }
}

/// The identifier the article resolver returns for `title`.
pub open spec fn article_upsert_id(s: StoreModel, title: Seq<char>) -> int {
    if article_find(s.articles, title) >= 0 {
        s.articles[article_find(s.articles, title)].id
    } else {
        s.articles.len() as int + 1
    }
}

pub proof fn lemma_article_upsert_wf(s: StoreModel, title: Seq<char>, time: int)
    requires
        s.wf(),
        title.len() > 0,
    ensures
        article_upsert(s, title, time).wf(),
        article_find(article_upsert(s, title, time).articles, title) >= 0,
        article_upsert_id(s, title) == article_upsert(s, title, time).articles[
            article_find(article_upsert(s, title, time).articles, title)
        ].id,
        1 <= article_upsert_id(s, title) <= article_upsert(s, title, time).articles.len(),
{
    lemma_article_find(s.articles, title);
    let s1 = article_upsert(s, title, time);
    if article_find(s.articles, title) >= 0 {
    } else {
        assert(s1.articles.last().title == title);
        assert(s1.articles.drop_last() =~= s.articles);
    }
}

fn find_article(rows: &Vec<ArticleRow>, title: &String) -> (r: Option<usize>)
    ensures
        match r {
            Some(i) => i < rows@.len() && rows@[i as int]@.title == title@,
            None => forall|j: int| 0 <= j < rows@.len() ==> (#[trigger] rows@[j]@).title != title@,
        },
{
    let n = rows.len();
    let mut i: usize = 0;
    while i < n
        invariant
            i <= n == rows@.len(),
            forall|j: int| 0 <= j < i ==> (#[trigger] rows@[j]@).title != title@,
        decreases n - i,
    {
        if rows[i].title == *title {
            return Some(i);
        }
        i = i + 1;
    }
    None
}

/// The position of the link row for the pair, or -1 when the pair is not
/// linked.
pub open spec fn link_find(rows: Seq<LinkModel>, source_id: int, article_id: int) -> int
    decreases rows.len(),
{
    if rows.len() == 0 {
        -1
    } else if rows.last().source_id == source_id && rows.last().article_id == article_id {
        rows.len() - 1
    } else {
        link_find(rows.drop_last(), source_id, article_id)
    }
}

pub proof fn lemma_link_find(rows: Seq<LinkModel>, source_id: int, article_id: int)
    ensures
        link_find(rows, source_id, article_id) == -1 <==> (forall|i: int|
            0 <= i < rows.len() ==> !((#[trigger] rows[i]).source_id == source_id && rows[i].article_id
                == article_id)),
        link_find(rows, source_id, article_id) != -1 ==> 0 <= link_find(rows, source_id, article_id)
            < rows.len() && rows[link_find(rows, source_id, article_id)].source_id == source_id
            && rows[link_find(rows, source_id, article_id)].article_id == article_id,
    decreases rows.len(),
{
    if rows.len() > 0 && !(rows.last().source_id == source_id && rows.last().article_id
        == article_id) {
        lemma_link_find(rows.drop_last(), source_id, article_id);
        assert(forall|i: int|
            0 <= i < rows.len() - 1 ==> (#[trigger] rows[i]) == rows.drop_last()[i]);
    }
}

/// Insert-or-ignore on the link table: duplicate pairs are dropped.
pub open spec fn link_insert(s: StoreModel, source_id: int, article_id: int) -> StoreModel {
    if link_find(s.links, source_id, article_id) >= 0 {
        s
    } else {
        StoreModel { links: s.links.push(LinkModel { source_id, article_id }), ..s }
    }
}

pub proof fn lemma_link_insert_wf(s: StoreModel, source_id: int, article_id: int)
    requires
        s.wf(),
        1 <= source_id <= s.sources.len(),
        1 <= article_id <= s.articles.len(),
    ensures
        link_insert(s, source_id, article_id).wf(),
        link_find(link_insert(s, source_id, article_id).links, source_id, article_id) >= 0,
{
    lemma_link_find(s.links, source_id, article_id);
    let s1 = link_insert(s, source_id, article_id);
    if link_find(s.links, source_id, article_id) >= 0 {
    } else {
        assert(s1.links.drop_last() =~= s.links);
    }
}

fn find_link(rows: &Vec<LinkRow>, source_id: i64, article_id: i64) -> (r: Option<usize>)
    ensures
        match r {
            Some(i) => i < rows@.len() && rows@[i as int]@.source_id == source_id
                && rows@[i as int]@.article_id == article_id,
            None => forall|j: int|
                0 <= j < rows@.len() ==> !((#[trigger] rows@[j]@).source_id == source_id
                    && rows@[j]@.article_id == article_id),
        },
{
    let n = rows.len();
    let mut i: usize = 0;
    while i < n
        invariant
            i <= n == rows@.len(),
            forall|j: int|
                0 <= j < i ==> !((#[trigger] rows@[j]@).source_id == source_id
                    && rows@[j]@.article_id == article_id),
        decreases n - i,
    {
        if rows[i].source_id == source_id && rows[i].article_id == article_id {
            return Some(i);
        }
        i = i + 1;
    }
    None
}

/// The position of the opinion row with this text, or -1 when the text has
/// never been recorded. Opinion text is a process-wide natural key, not
/// scoped to an article or an author.
pub open spec fn opinion_find(rows: Seq<OpinionModel>, text: Seq<char>) -> int
    decreases rows.len(),
{
    if rows.len() == 0 {
        -1
    } else if rows.last().text == text {
        rows.len() - 1
    } else {
        opinion_find(rows.drop_last(), text)
    }
}

pub proof fn lemma_opinion_find(rows: Seq<OpinionModel>, text: Seq<char>)
    ensures
        opinion_find(rows, text) == -1 <==> (forall|i: int|
            0 <= i < rows.len() ==> (#[trigger] rows[i]).text != text),
        opinion_find(rows, text) != -1 ==> 0 <= opinion_find(rows, text) < rows.len() && rows[
            opinion_find(rows, text)
        ].text == text,
    decreases rows.len(),
{
    if rows.len() > 0 && rows.last().text != text {
        lemma_opinion_find(rows.drop_last(), text);
        assert(forall|i: int|
            0 <= i < rows.len() - 1 ==> (#[trigger] rows[i]) == rows.drop_last()[i]);
    }
}

/// Insert-or-ignore on the opinion table: a text seen before is dropped,
/// whatever author or article it now arrives with.
pub open spec fn opinion_insert(
    s: StoreModel,
    author_id: int,
    text: Seq<char>,
    article_id: int,
) -> StoreModel {
    if opinion_find(s.opinions, text) >= 0 {
        s
    } else {
        StoreModel {
            opinions: s.opinions.push(
                OpinionModel { id: s.opinions.len() as int + 1, author_id, text, article_id },
            ),
            ..s
        }
    }
}

pub proof fn lemma_opinion_insert_wf(s: StoreModel, author_id: int, text: Seq<char>, article_id: int)
    requires
        s.wf(),
        text.len() > 0,
        1 <= author_id <= s.people.len(),
        1 <= article_id <= s.articles.len(),
    ensures
        opinion_insert(s, author_id, text, article_id).wf(),
        opinion_find(opinion_insert(s, author_id, text, article_id).opinions, text) >= 0,
{
    lemma_opinion_find(s.opinions, text);
    let s1 = opinion_insert(s, author_id, text, article_id);
    if opinion_find(s.opinions, text) >= 0 {
    } else {
        assert(s1.opinions.last().text == text);
        assert(s1.opinions.drop_last() =~= s.opinions);
    }
}

fn find_opinion(rows: &Vec<OpinionRow>, text: &String) -> (r: Option<usize>)
    ensures
        match r {
            Some(i) => i < rows@.len() && rows@[i as int]@.text == text@,
            None => forall|j: int| 0 <= j < rows@.len() ==> (#[trigger] rows@[j]@).text != text@,
        },
{
    let n = rows.len();
    let mut i: usize = 0;
    while i < n
        invariant
            i <= n == rows@.len(),
            forall|j: int| 0 <= j < i ==> (#[trigger] rows@[j]@).text != text@,
        decreases n - i,
    {
        if rows[i].text == *text {
            return Some(i);
        }
        i = i + 1;
    }
    None
}

impl Store {
    /// Resolve a source by name: reuse the row with that name when one
    /// exists — never touching its attributes — and insert one otherwise.
    /// Returns the row's identifier either way.
    pub fn resolve_source(
        &mut self,
        name: &String,
        country_id: Option<i64>,
        origin: &Option<String>,
    ) -> (id: i64)
        requires
            old(self)@.wf(),
            name@.len() > 0,
            old(self)@.sources.len() < ID_LIMIT,
            match country_id {
                Some(c) => 1 <= c <= old(self)@.countries.len(),
                None => true,
            },
        ensures
            final(self)@.wf(),
            final(self)@ == source_upsert(old(self)@, name@, opt_id_view(country_id), opt_view(*origin)),
            id == source_upsert_id(old(self)@, name@),
            1 <= id <= final(self)@.sources.len(),
    {
        proof {
            lemma_source_find(self@.sources, name@);
            lemma_source_upsert_wf(self@, name@, opt_id_view(country_id), opt_view(*origin));
        }
        match find_source(&self.sources, name) {
            Some(i) => {
                let id = self.sources[i].id;
                proof {
                    let k = source_find(self@.sources, name@);
                    assert(self@.sources[i as int].name == name@);
                    assert(self@.sources[k].name == name@);
                    assert(k == i as int);
                }
                id
            },
            None => {
                assert(source_find(self@.sources, name@) == -1);
                let id: i64 = (self.sources.len() as i64) + 1;
                let row = SourceRow {
                    id,
                    name: name.clone(),
                    country_id,
                    origin: match origin {
                        Some(o) => Some(o.clone()),
                        None => None,
                    },
                };
                proof {
                    assert(row@ == SourceModel {
                        id: old(self)@.sources.len() as int + 1,
                        name: name@,
                        country_id: opt_id_view(country_id),
                        origin: opt_view(*origin),
                    });
                }
                self.sources.push(row);
                proof {
                    assert(self.sources@.map_values(|r: SourceRow| r@) =~= old(
                        self,
                    ).sources@.map_values(|r: SourceRow| r@).push(row@));
                    assert(self@ == source_upsert(
                        old(self)@,
                        name@,
                        opt_id_view(country_id),
                        opt_view(*origin),
                    ));
                }
                id
            },
        }
    }

    /// Resolve a person by name: reuse the row with that name when one
    /// exists — never touching its attributes — and insert one otherwise.
    /// Returns the row's identifier either way.
    pub fn resolve_person(
        &mut self,
        name: &String,
        country_id: Option<i64>,
        title: &Option<String>,
        origin: &Option<String>,
        identity: &Option<String>,
    ) -> (id: i64)
        requires
            old(self)@.wf(),
            name@.len() > 0,
            old(self)@.people.len() < ID_LIMIT,
            match country_id {
                Some(c) => 1 <= c <= old(self)@.countries.len(),
                None => true,
            },
        ensures
            final(self)@.wf(),
            final(self)@ == person_upsert(
                old(self)@,
                name@,
                opt_id_view(country_id),
                opt_view(*title),
                opt_view(*origin),
                opt_view(*identity),
            ),
            id == person_upsert_id(old(self)@, name@),
            1 <= id <= final(self)@.people.len(),
    {
        proof {
            lemma_person_find(self@.people, name@);
            lemma_person_upsert_wf(
                self@,
                name@,
                opt_id_view(country_id),
                opt_view(*title),
                opt_view(*origin),
                opt_view(*identity),
            );
        }
        match find_person(&self.people, name) {
            Some(i) => {
                let id = self.people[i].id;
                proof {
                    let k = person_find(self@.people, name@);
                    assert(self@.people[i as int].name == name@);
                    assert(self@.people[k].name == name@);
                    assert(k == i as int);
                }
                id
            },
            None => {
                assert(person_find(self@.people, name@) == -1);
                let id: i64 = (self.people.len() as i64) + 1;
                let row = PersonRow {
                    id,
                    name: name.clone(),
                    country_id,
                    title: match title {
                        Some(t) => Some(t.clone()),
                        None => None,
                    },
                    origin: match origin {
                        Some(o) => Some(o.clone()),
                        None => None,
                    },
                    identity: match identity {
                        Some(v) => Some(v.clone()),
                        None => None,
                    },
                };
                proof {
                    assert(row@ == PersonModel {
                        id: old(self)@.people.len() as int + 1,
                        name: name@,
                        country_id: opt_id_view(country_id),
                        title: opt_view(*title),
                        origin: opt_view(*origin),
                        identity: opt_view(*identity),
                    });
                }
                self.people.push(row);
                proof {
                    assert(self.people@.map_values(|r: PersonRow| r@) =~= old(
                        self,
                    ).people@.map_values(|r: PersonRow| r@).push(row@));
                    assert(self@ == person_upsert(
                        old(self)@,
                        name@,
                        opt_id_view(country_id),
                        opt_view(*title),
                        opt_view(*origin),
                        opt_view(*identity),
                    ));
                }
                id
            },
        }
    }

    /// Resolve an article by title: reuse the row with that title when one
    /// exists — keeping its original timestamp — and insert one otherwise.
    /// Returns the row's identifier either way.
    pub fn resolve_article(&mut self, title: &String, time: i64) -> (id: i64)
        requires
            old(self)@.wf(),
            title@.len() > 0,
            old(self)@.articles.len() < ID_LIMIT,
        ensures
            final(self)@.wf(),
            final(self)@ == article_upsert(old(self)@, title@, time as int),
            id == article_upsert_id(old(self)@, title@),
            1 <= id <= final(self)@.articles.len(),
    {
        proof {
            lemma_article_find(self@.articles, title@);
            lemma_article_upsert_wf(self@, title@, time as int);
        }
        match find_article(&self.articles, title) {
            Some(i) => {
                let id = self.articles[i].id;
                proof {
                    let k = article_find(self@.articles, title@);
                    assert(self@.articles[i as int].title == title@);
                    assert(self@.articles[k].title == title@);
                    assert(k == i as int);
                }
                id
            },
            None => {
                assert(article_find(self@.articles, title@) == -1);
                let id: i64 = (self.articles.len() as i64) + 1;
                let row = ArticleRow { id, title: title.clone(), time };
                proof {
                    assert(row@ == ArticleModel {
                        id: old(self)@.articles.len() as int + 1,
                        title: title@,
                        time: time as int,
                    });
                }
                self.articles.push(row);
                proof {
                    assert(self.articles@.map_values(|r: ArticleRow| r@) =~= old(
                        self,
                    ).articles@.map_values(|r: ArticleRow| r@).push(row@));
                    assert(self@ == article_upsert(old(self)@, title@, time as int));
                }
                id
            },
        }
    }

    /// Link a source to an article. The pair is unique: a duplicate link is
    /// a no-op, and the result says whether a row was written.
    pub fn link_source_article(&mut self, source_id: i64, article_id: i64) -> (inserted: bool)
        requires
            old(self)@.wf(),
            1 <= source_id <= old(self)@.sources.len(),
            1 <= article_id <= old(self)@.articles.len(),
        ensures
            final(self)@.wf(),
            final(self)@ == link_insert(old(self)@, source_id as int, article_id as int),
            inserted == (link_find(old(self)@.links, source_id as int, article_id as int) == -1),
    {
        proof {
            lemma_link_find(self@.links, source_id as int, article_id as int);
            lemma_link_insert_wf(self@, source_id as int, article_id as int);
        }
        match find_link(&self.links, source_id, article_id) {
            Some(i) => {
                proof {
                    assert(self@.links[i as int].source_id == source_id as int
                        && self@.links[i as int].article_id == article_id as int);
                    assert(link_find(self@.links, source_id as int, article_id as int) != -1);
                }
                false
            },
            None => {
                assert(link_find(self@.links, source_id as int, article_id as int) == -1);
                let row = LinkRow { source_id, article_id };
                self.links.push(row);
                proof {
                    assert(self.links@.map_values(|r: LinkRow| r@) =~= old(
                        self,
                    ).links@.map_values(|r: LinkRow| r@).push(row@));
                    assert(self@ == link_insert(old(self)@, source_id as int, article_id as int));
                }
                true
            },
        }
    }

    /// Record an opinion keyed by its text. A text recorded before — for
    /// whatever author or article — is a no-op, and the result says whether
    /// a row was written.
    pub fn insert_opinion(&mut self, author_id: i64, text: &String, article_id: i64) -> (inserted:
        bool)
        requires
            old(self)@.wf(),
            text@.len() > 0,
            old(self)@.opinions.len() < ID_LIMIT,
            1 <= author_id <= old(self)@.people.len(),
            1 <= article_id <= old(self)@.articles.len(),
        ensures
            final(self)@.wf(),
            final(self)@ == opinion_insert(old(self)@, author_id as int, text@, article_id as int),
            inserted == (opinion_find(old(self)@.opinions, text@) == -1),
    {
        proof {
            lemma_opinion_find(self@.opinions, text@);
            lemma_opinion_insert_wf(self@, author_id as int, text@, article_id as int);
        }
        match find_opinion(&self.opinions, text) {
            Some(i) => {
                proof {
                    let k = opinion_find(self@.opinions, text@);
                    assert(self@.opinions[i as int].text == text@);
                    assert(self@.opinions[k].text == text@);
                }
                false
            },
            None => {
                assert(opinion_find(self@.opinions, text@) == -1);
                let id: i64 = (self.opinions.len() as i64) + 1;
                let row = OpinionRow { id, author_id, text: text.clone(), article_id };
                proof {
                    assert(row@ == OpinionModel {
                        id: old(self)@.opinions.len() as int + 1,
                        author_id: author_id as int,
                        text: text@,
                        article_id: article_id as int,
                    });
                }
                self.opinions.push(row);
                proof {
                    assert(self.opinions@.map_values(|r: OpinionRow| r@) =~= old(
                        self,
                    ).opinions@.map_values(|r: OpinionRow| r@).push(row@));
                    assert(self@ == opinion_insert(
                        old(self)@,
                        author_id as int,
                        text@,
                        article_id as int,
                    ));
                }
                true
            },
        }
    }
}

/// How many country rows carry `name`.
pub open spec fn country_count(rows: Seq<CountryModel>, name: Seq<char>) -> int
    decreases rows.len(),
{
    if rows.len() == 0 {
        0
    } else {
        country_count(rows.drop_last(), name) + if rows.last().name == name {
            1int
        } else {
            0int
        }
    }
}

/// How many source rows carry `name`.
pub open spec fn source_count(rows: Seq<SourceModel>, name: Seq<char>) -> int
    decreases rows.len(),
{
    if rows.len() == 0 {
        0
    } else {
        source_count(rows.drop_last(), name) + if rows.last().name == name {
            1int
        } else {
            0int
        }
    }
}

/// How many article rows carry `title`.
pub open spec fn article_count(rows: Seq<ArticleModel>, title: Seq<char>) -> int
    decreases rows.len(),
{
    if rows.len() == 0 {
        0
    } else {
        article_count(rows.drop_last(), title) + if rows.last().title == title {
            1int
        } else {
            0int
        }
    }
}

/// How many opinion rows carry `text`.
pub open spec fn opinion_count(rows: Seq<OpinionModel>, text: Seq<char>) -> int
    decreases rows.len(),
{
    if rows.len() == 0 {
        0
    } else {
        opinion_count(rows.drop_last(), text) + if rows.last().text == text {
            1int
        } else {
            0int
        }
    }
}

/// In a table whose names are pairwise distinct, a name occurs exactly once
/// when present and never otherwise.
pub proof fn lemma_country_count_unique(rows: Seq<CountryModel>, name: Seq<char>)
    requires
        forall|i: int, j: int|
            0 <= i < j < rows.len() ==> (#[trigger] rows[i]).name != (#[trigger] rows[j]).name,
    ensures
        country_count(rows, name) == if country_find(rows, name) >= 0 {
            1int
        } else {
            0int
        },
    decreases rows.len(),
{
    lemma_country_find(rows, name);
    if rows.len() > 0 {
        let dl = rows.drop_last();
        assert(forall|i: int| 0 <= i < rows.len() - 1 ==> (#[trigger] dl[i]) == rows[i]);
        lemma_country_count_unique(dl, name);
        lemma_country_find(dl, name);
        if rows.last().name == name {
            assert(forall|i: int| 0 <= i < dl.len() ==> (#[trigger] dl[i]).name != name);
        }
    }
}

pub proof fn lemma_source_count_unique(rows: Seq<SourceModel>, name: Seq<char>)
    requires
        forall|i: int, j: int|
            0 <= i < j < rows.len() ==> (#[trigger] rows[i]).name != (#[trigger] rows[j]).name,
    ensures
        source_count(rows, name) == if source_find(rows, name) >= 0 {
            1int
        } else {
            0int
        },
    decreases rows.len(),
{
    lemma_source_find(rows, name);
    if rows.len() > 0 {
        let dl = rows.drop_last();
        assert(forall|i: int| 0 <= i < rows.len() - 1 ==> (#[trigger] dl[i]) == rows[i]);
        lemma_source_count_unique(dl, name);
        lemma_source_find(dl, name);
        if rows.last().name == name {
            assert(forall|i: int| 0 <= i < dl.len() ==> (#[trigger] dl[i]).name != name);
        }
    }
}

pub proof fn lemma_article_count_unique(rows: Seq<ArticleModel>, title: Seq<char>)
    requires
        forall|i: int, j: int|
            0 <= i < j < rows.len() ==> (#[trigger] rows[i]).title != (#[trigger] rows[j]).title,
    ensures
        article_count(rows, title) == if article_find(rows, title) >= 0 {
            1int
        } else {
            0int
        },
    decreases rows.len(),
{
    lemma_article_find(rows, title);
    if rows.len() > 0 {
        let dl = rows.drop_last();
        assert(forall|i: int| 0 <= i < rows.len() - 1 ==> (#[trigger] dl[i]) == rows[i]);
        lemma_article_count_unique(dl, title);
        lemma_article_find(dl, title);
        if rows.last().title == title {
            assert(forall|i: int| 0 <= i < dl.len() ==> (#[trigger] dl[i]).title != title);
        }
    }
}

pub proof fn lemma_opinion_count_unique(rows: Seq<OpinionModel>, text: Seq<char>)
    requires
        forall|i: int, j: int|
            0 <= i < j < rows.len() ==> (#[trigger] rows[i]).text != (#[trigger] rows[j]).text,
    ensures
        opinion_count(rows, text) == if opinion_find(rows, text) >= 0 {
            1int
        } else {
            0int
        },
    decreases rows.len(),
{
    lemma_opinion_find(rows, text);
    if rows.len() > 0 {
        let dl = rows.drop_last();
        assert(forall|i: int| 0 <= i < rows.len() - 1 ==> (#[trigger] dl[i]) == rows[i]);
        lemma_opinion_count_unique(dl, text);
        lemma_opinion_find(dl, text);
        if rows.last().text == text {
            assert(forall|i: int| 0 <= i < dl.len() ==> (#[trigger] dl[i]).text != text);
        }
    }
}

/// Any sequence of country resolutions of one name, interleaved however the
/// callers race, applied one payload after another.
pub open spec fn country_upserts(
    s: StoreModel,
    name: Seq<char>,
    attrs: Seq<(Option<Seq<char>>, bool)>,
) -> StoreModel
    decreases attrs.len(),
{
    if attrs.len() == 0 {
        s
    } else {
        country_upserts(
            country_upsert(s, name, attrs[0].0, attrs[0].1),
            name,
            attrs.subrange(1, attrs.len() as int),
        )
    }
}

/// Once a name is present, every further resolution of it leaves the store
/// untouched.
pub proof fn lemma_country_upserts_noop(
    s: StoreModel,
    name: Seq<char>,
    attrs: Seq<(Option<Seq<char>>, bool)>,
)
    requires
        country_find(s.countries, name) >= 0,
    ensures
        country_upserts(s, name, attrs) == s,
    decreases attrs.len(),
{
    if attrs.len() > 0 {
        assert(country_upsert(s, name, attrs[0].0, attrs[0].1) == s);
        lemma_country_upserts_noop(s, name, attrs.subrange(1, attrs.len() as int));
    }
}

/// Law (idempotent convergence): however many callers resolve the same
/// country name concurrently — the backend serializes their inserts in some
/// order, here an arbitrary sequence of payloads — the store ends exactly as
/// after the first resolution, exactly one row carries the name, and every
/// caller is answered with the same identifier.
pub proof fn lemma_country_resolution_converges(
    s: StoreModel,
    name: Seq<char>,
    attrs: Seq<(Option<Seq<char>>, bool)>,
)
    requires
        s.wf(),
        name.len() > 0,
        attrs.len() >= 1,
    ensures
        country_upserts(s, name, attrs) == country_upsert(s, name, attrs[0].0, attrs[0].1),
        country_count(country_upserts(s, name, attrs).countries, name) == 1,
        forall|k: int|
            0 <= k < attrs.len() ==> country_upsert_id(
                country_upserts(s, name, #[trigger] attrs.take(k)),
                name,
            ) == country_upsert_id(s, name),
{
    let s1 = country_upsert(s, name, attrs[0].0, attrs[0].1);
    lemma_country_upsert_wf(s, name, attrs[0].0, attrs[0].1);
    lemma_country_upserts_noop(s1, name, attrs.subrange(1, attrs.len() as int));
    lemma_country_count_unique(s1.countries, name);
    lemma_country_find(s.countries, name);
    if country_find(s.countries, name) == -1 {
        assert(s1.countries.drop_last() =~= s.countries);
    }
    assert(country_upsert_id(s1, name) == country_upsert_id(s, name));
    assert forall|k: int| 0 <= k < attrs.len() implies country_upsert_id(
        country_upserts(s, name, #[trigger] attrs.take(k)),
        name,
    ) == country_upsert_id(s, name) by {
        if k == 0 {
            assert(attrs.take(0) =~= Seq::<(Option<Seq<char>>, bool)>::empty());
        } else {
            let t = attrs.take(k);
            assert(t[0] == attrs[0]);
            assert(t.subrange(1, t.len() as int) =~= attrs.subrange(1, k));
            lemma_country_upserts_noop(s1, name, attrs.subrange(1, k));
        }
    }
}

/// Law (attributes never overwritten): when a source name is first resolved
/// with one payload and then again with any other, the second resolution
/// returns the same identifier and leaves the row — country reference and
/// origin tag included — exactly as the first wrote it.
pub proof fn lemma_source_attributes_preserved(
    s: StoreModel,
    name: Seq<char>,
    c1: Option<int>,
    o1: Option<Seq<char>>,
    c2: Option<int>,
    o2: Option<Seq<char>>,
)
    requires
        s.wf(),
        name.len() > 0,
        match c1 {
            Some(c) => 1 <= c <= s.countries.len(),
            None => true,
        },
    ensures
        ({
            let s1 = source_upsert(s, name, c1, o1);
            &&& source_upsert(s1, name, c2, o2) == s1
            &&& source_upsert_id(s1, name) == source_upsert_id(s, name)
            &&& source_find(s.sources, name) == -1 ==> {
                let k = source_find(s1.sources, name);
                &&& s1.sources[k].country_id == c1
                &&& s1.sources[k].origin == o1
                &&& s1.sources[k].id == source_upsert_id(s, name)
            }
        }),
{
    lemma_source_upsert_wf(s, name, c1, o1);
    lemma_source_find(s.sources, name);
    let s1 = source_upsert(s, name, c1, o1);
    if source_find(s.sources, name) == -1 {
        assert(s1.sources.drop_last() =~= s.sources);
    }
}

/// Law (opinion text is a process-wide key): once an opinion text is
/// recorded, recording it again is a no-op — for the same article and author
/// or for any other — and exactly one row ever carries the text.
pub proof fn lemma_opinion_insert_idempotent(
    s: StoreModel,
    author1: int,
    text: Seq<char>,
    article1: int,
    author2: int,
    article2: int,
)
    requires
        s.wf(),
        text.len() > 0,
        1 <= author1 <= s.people.len(),
        1 <= article1 <= s.articles.len(),
    ensures
        ({
            let s1 = opinion_insert(s, author1, text, article1);
            &&& opinion_insert(s1, author2, text, article2) == s1
            &&& opinion_count(s1.opinions, text) == 1
        }),
{
    lemma_opinion_insert_wf(s, author1, text, article1);
    let s1 = opinion_insert(s, author1, text, article1);
    lemma_opinion_count_unique(s1.opinions, text);
}

/// Any sequence of source resolutions of one name, interleaved however the
/// callers race, applied one payload after another.
pub open spec fn source_upserts(
    s: StoreModel,
    name: Seq<char>,
    attrs: Seq<(Option<int>, Option<Seq<char>>)>,
) -> StoreModel
    decreases attrs.len(),
{
    if attrs.len() == 0 {
        s
    } else {
        source_upserts(
            source_upsert(s, name, attrs[0].0, attrs[0].1),
            name,
            attrs.subrange(1, attrs.len() as int),
        )
    }
}

/// Once a name is present, every further resolution of it leaves the store
/// untouched.
pub proof fn lemma_source_upserts_noop(
    s: StoreModel,
    name: Seq<char>,
    attrs: Seq<(Option<int>, Option<Seq<char>>)>,
)
    requires
        source_find(s.sources, name) >= 0,
    ensures
        source_upserts(s, name, attrs) == s,
    decreases attrs.len(),
{
    if attrs.len() > 0 {
        assert(source_upsert(s, name, attrs[0].0, attrs[0].1) == s);
        lemma_source_upserts_noop(s, name, attrs.subrange(1, attrs.len() as int));
    }
}

/// Law (idempotent convergence): however many callers resolve the same
/// source name concurrently — the backend serializes their inserts in some
/// order, here an arbitrary sequence of payloads — the store ends exactly
/// as after the first resolution, exactly one row carries the name, and
/// every caller is answered with the same identifier.
pub proof fn lemma_source_resolution_converges(
    s: StoreModel,
    name: Seq<char>,
    attrs: Seq<(Option<int>, Option<Seq<char>>)>,
)
    requires
        s.wf(),
        name.len() > 0,
        attrs.len() >= 1,
        match attrs[0].0 {
            Some(c) => 1 <= c <= s.countries.len(),
            None => true,
        },
    ensures
        source_upserts(s, name, attrs) == source_upsert(s, name, attrs[0].0, attrs[0].1),
        source_count(source_upserts(s, name, attrs).sources, name) == 1,
        forall|k: int|
            0 <= k < attrs.len() ==> source_upsert_id(
                source_upserts(s, name, #[trigger] attrs.take(k)),
                name,
            ) == source_upsert_id(s, name),
{
    let s1 = source_upsert(s, name, attrs[0].0, attrs[0].1);
    lemma_source_upsert_wf(s, name, attrs[0].0, attrs[0].1);
    lemma_source_upserts_noop(s1, name, attrs.subrange(1, attrs.len() as int));
    lemma_source_count_unique(s1.sources, name);
    lemma_source_find(s.sources, name);
    if source_find(s.sources, name) == -1 {
        assert(s1.sources.drop_last() =~= s.sources);
    }
    assert(source_upsert_id(s1, name) == source_upsert_id(s, name));
    assert forall|k: int| 0 <= k < attrs.len() implies source_upsert_id(
        source_upserts(s, name, #[trigger] attrs.take(k)),
        name,
    ) == source_upsert_id(s, name) by {
        if k == 0 {
            assert(attrs.take(0) =~= Seq::<(Option<int>, Option<Seq<char>>)>::empty());
        } else {
            let t = attrs.take(k);
            assert(t[0] == attrs[0]);
            assert(t.subrange(1, t.len() as int) =~= attrs.subrange(1, k));
            lemma_source_upserts_noop(s1, name, attrs.subrange(1, k));
        }
    }
}

} // verus!
