//! Input record types and tag synthesis.
//!
//! A record describes one analyzed article: the person it analyzes, the
//! sources that carried it, and the opinions extracted from it. Most fields
//! are optional strings taken from loosely-normalized documents; a missing
//! field is absent, not an empty string.
//!
//! A source's origin tag and a person's origin and identity tags are
//! synthesized by joining with commas, in a fixed field order, every value
//! that is present among a fixed set of categorical fields. When no field of
//! the set is present the tag itself is absent.

use vstd::prelude::*;

verus! {

/// One extracted opinion span. Its text is the natural key that
/// deduplicates repeated extraction of the same span.
#[derive(Debug, Clone)]
pub struct Opinion {
    pub start: i64,
    pub end: i64,
    pub text: Option<String>,
}

/// A source (publication, organization, account) that carried the article.
#[derive(Debug, Clone)]
pub struct Source {
    pub geography: Option<String>,
    pub from_organization: Option<String>,
    pub from_department_country: Option<String>,
    pub from_facebook: Option<String>,
    pub from_twitter: Option<String>,
    pub name: Option<String>,
    pub from_web: Option<String>,
    pub from_representatives: Option<String>,
    pub from_embassy_located: Option<String>,
    pub from_bank: Option<String>,
    pub from_university_region: Option<String>,
    pub orob_region: Option<String>,
    pub from_senator_region: Option<String>,
    pub focus_department: Option<String>,
    pub from_representatives_region: Option<String>,
    pub geopolitics: Option<String>,
    pub from_embassy_country: Option<String>,
    pub from_institution: Option<String>,
    pub official_site: Option<String>,
    pub from_university: Option<String>,
    pub from_senator: Option<String>,
    pub from_news_agency: Option<String>,
    pub from_journal: Option<String>,
    pub orob: Option<String>,
    pub from_department: Option<String>,
    pub country: Option<String>,
    pub from_blog: Option<String>,
    pub from_university_news: Option<String>,
}

/// The person (author) an article analyzes, with the opinions attributed to
/// them.
#[derive(Debug, Clone)]
pub struct People {
    pub geography: Option<String>,
    pub from_tibet: Option<String>,
    pub identity_entertainment: Option<String>,
    pub identity_refugee: Option<String>,
    pub from_uyghur: Option<String>,
    pub twitter: Option<String>,
    pub youtube_url: Option<String>,
    pub information: Option<String>,
    pub identity_crime: Option<String>,
    pub fb_shot: Option<String>,
    pub from_congressman_state: Option<String>,
    pub name: Option<String>,
    pub from_media: Option<String>,
    pub twitter_acc: Option<String>,
    pub from_congressman_district: Option<String>,
    pub name_clean: Option<String>,
    pub from_expert: Option<String>,
    pub from_congressman: Option<String>,
    pub from_congressman_period: Option<String>,
    pub identity: Option<String>,
    pub identity_military: Option<String>,
    pub fb: Option<String>,
    pub orob_region: Option<String>,
    pub identity_business: Option<String>,
    pub identity_expert: Option<String>,
    pub geopolitics: Option<String>,
    pub identity_media: Option<String>,
    pub identity_religion: Option<String>,
    pub title: Option<String>,
    pub from_congressman_party: Option<String>,
    pub identity_activist: Option<String>,
    pub from_topic: Option<String>,
    pub orob: Option<String>,
    pub identity_politician: Option<String>,
    pub expression: Option<String>,
    pub identity_judge: Option<String>,
    pub identity_student: Option<String>,
    pub country: Option<String>,
    pub identity_terrorist: Option<String>,
    pub identity_sports: Option<String>,
    pub identity_lawyer: Option<String>,
    pub opinion: Vec<Opinion>,
}

/// One input record: an article, its sources, its analyzed person.
#[derive(Debug, Clone)]
pub struct Root {
    pub people: People,
    pub headline: Option<String>,
    pub source: Vec<Source>,
    pub original_site: Option<String>,
    pub time: Option<String>,
    pub section: Option<String>,
    pub keywords: Option<String>,
    pub abstract_field: Option<String>,
    pub topic: Option<String>,
    pub body: Option<String>,
    pub notes: Option<String>,
    pub further_information: Option<String>,
    pub label: Option<String>,
    pub peo_state: Option<String>,
    pub org_state: Option<String>,
    pub ori_state: Option<String>,
    pub by_state: Option<String>,
    pub peo_expression_state: Option<String>,
    pub headline_classification_state: Option<String>,
    pub keywords_state: Option<String>,
    pub abstract_state: Option<String>,
    pub topic_sentence_state: Option<String>,
    pub topic_sentence_classification_state: Option<String>,
    pub expression_classification_state: Option<String>,
    pub update_time: Option<String>,
    pub media_id: Option<String>,
}

/// The character sequence of an optional string, when present.
pub open spec fn opt_view(o: Option<String>) -> Option<Seq<char>> {
    match o {
        Some(s) => Some(s@),
        None => None,
    }
}

/// The tag parts one optional field contributes: its value when present,
/// nothing when absent.
pub open spec fn opt_part(o: Option<String>) -> Seq<Seq<char>> {
    match o {
        Some(s) => seq![s@],
        None => Seq::empty(),
    }
}

/// The parts contributed by a person's congressional-period field, which is
/// taken only when its value is not the literal word `None`.
pub open spec fn period_part(o: Option<String>) -> Seq<Seq<char>> {
    match o {
        Some(s) => if s@ == "None"@ {
            Seq::empty()
        } else {
            seq![s@]
        },
        None => Seq::empty(),
    }
}

/// The comma-join of a sequence of parts.
pub open spec fn join_comma(parts: Seq<Seq<char>>) -> Seq<char>
    decreases parts.len(),
{
    if parts.len() == 0 {
        Seq::empty()
    } else if parts.len() == 1 {
        parts[0]
    } else {
        join_comma(parts.drop_last()) + seq![','] + parts.last()
    }
}

/// A synthesized tag: absent when no part is present, otherwise the
/// comma-join of the parts.
pub open spec fn tag_of(parts: Seq<Seq<char>>) -> Option<Seq<char>> {
    if parts.len() == 0 {
        None
    } else {
        Some(join_comma(parts))
    }
}

/// The parts of a source's origin tag, in their fixed order.
pub open spec fn source_origin_parts(s: Source) -> Seq<Seq<char>> {
    opt_part(s.from_blog) + opt_part(s.from_bank) + opt_part(s.from_department) + opt_part(
        s.from_journal,
    ) + opt_part(s.from_institution) + opt_part(s.from_senator) + opt_part(
        s.from_department_country,
    ) + opt_part(s.from_embassy_country) + opt_part(s.from_embassy_located) + opt_part(
        s.from_facebook,
    ) + opt_part(s.from_news_agency) + opt_part(s.from_organization) + opt_part(
        s.from_representatives,
    ) + opt_part(s.from_representatives_region) + opt_part(s.from_senator_region) + opt_part(
        s.from_twitter,
    ) + opt_part(s.from_university) + opt_part(s.from_university_region) + opt_part(s.from_web)
}

/// A source's origin tag.
pub open spec fn spec_source_origin(s: Source) -> Option<Seq<char>> {
    tag_of(source_origin_parts(s))
}

/// The parts of a person's origin tag, in their fixed order.
pub open spec fn people_origin_parts(p: People) -> Seq<Seq<char>> {
    opt_part(p.from_tibet) + opt_part(p.from_uyghur) + opt_part(p.from_congressman_state)
        + opt_part(p.from_media) + opt_part(p.from_congressman_district) + opt_part(p.from_expert)
        + opt_part(p.from_congressman) + period_part(p.from_congressman_period) + opt_part(
        p.from_congressman_party,
    ) + opt_part(p.from_topic)
}

/// A person's origin tag.
pub open spec fn spec_people_origin(p: People) -> Option<Seq<char>> {
    tag_of(people_origin_parts(p))
}

/// The parts of a person's identity tag, in their fixed order.
pub open spec fn people_identity_parts(p: People) -> Seq<Seq<char>> {
    opt_part(p.identity_entertainment) + opt_part(p.identity_refugee) + opt_part(p.identity_crime)
        + opt_part(p.identity_military) + opt_part(p.identity_business) + opt_part(
        p.identity_expert,
    ) + opt_part(p.identity_media) + opt_part(p.identity_religion) + opt_part(p.identity_activist)
        + opt_part(p.identity_politician) + opt_part(p.identity_judge) + opt_part(
        p.identity_student,
    ) + opt_part(p.identity_terrorist) + opt_part(p.identity_sports) + opt_part(p.identity_lawyer)
}

/// A person's identity tag.
pub open spec fn spec_people_identity(p: People) -> Option<Seq<char>> {
    tag_of(people_identity_parts(p))
}

/// Appending one more part moves the join past one more comma.
proof fn lemma_join_push(parts: Seq<Seq<char>>, v: Seq<char>)
    ensures
        join_comma(parts.push(v)) == if parts.len() == 0 {
            v
        } else {
            join_comma(parts) + seq![','] + v
        },
{
    let p = parts.push(v);
    assert(p.drop_last() =~= parts);
    if parts.len() == 0 {
        assert(join_comma(p) == p[0]);
    }
}

/// One step of tag synthesis: fold the next optional field into the
/// accumulated join, tracking the parts taken so far.
fn tag_push(acc: &mut String, any: &mut bool, field: &Option<String>, parts: Ghost<
    Seq<Seq<char>>,
>) -> (out: Ghost<Seq<Seq<char>>>)
    requires
        *old(any) == (parts@.len() > 0),
        old(acc)@ == join_comma(parts@),
    ensures
        out@ == parts@ + opt_part(*field),
        *final(any) == (out@.len() > 0),
        final(acc)@ == join_comma(out@),
{
    match field {
        Some(s) => {
            if *any {
                acc.append(",");
            }
            acc.append(s.as_str());
            *any = true;
            proof {
                reveal_strlit(",");
                assert(","@ =~= seq![',']);
                lemma_join_push(parts@, s@);
                assert(parts@.push(s@) =~= parts@ + opt_part(*field));
                if parts@.len() == 0 {
                    assert(Seq::<char>::empty() + s@ =~= s@);
                }
            }
            Ghost(parts@ + opt_part(*field))
        },
        None => {
            proof {
                assert(parts@ + opt_part(*field) =~= parts@);
            }
            Ghost(parts@)
        },
    }
}

/// Like `tag_push`, for the one field whose value is skipped when it is the
/// literal word `None`.
fn tag_push_unless_none(acc: &mut String, any: &mut bool, field: &Option<String>, parts: Ghost<
    Seq<Seq<char>>,
>) -> (out: Ghost<Seq<Seq<char>>>)
    requires
        *old(any) == (parts@.len() > 0),
        old(acc)@ == join_comma(parts@),
    ensures
        out@ == parts@ + period_part(*field),
        *final(any) == (out@.len() > 0),
        final(acc)@ == join_comma(out@),
{
    match field {
        Some(s) => {
            let skip_word: String = String::from_str("None");
            if *s == skip_word {
                proof {
                    assert(parts@ + period_part(*field) =~= parts@);
                }
                Ghost(parts@)
            } else {
                if *any {
                    acc.append(",");
                }
                acc.append(s.as_str());
                *any = true;
                proof {
                    reveal_strlit(",");
                    assert(","@ =~= seq![',']);
                    lemma_join_push(parts@, s@);
                    assert(parts@.push(s@) =~= parts@ + period_part(*field));
                    if parts@.len() == 0 {
                        assert(Seq::<char>::empty() + s@ =~= s@);
                    }
                }
                Ghost(parts@ + period_part(*field))
            }
        },
        None => {
            proof {
                assert(parts@ + period_part(*field) =~= parts@);
            }
            Ghost(parts@)
        },
    }
}

impl Source {
    /// A source with every field absent.
    pub open spec fn blank() -> Source {
        Source {
            geography: None,
            from_organization: None,
            from_department_country: None,
            from_facebook: None,
            from_twitter: None,
            name: None,
            from_web: None,
            from_representatives: None,
            from_embassy_located: None,
            from_bank: None,
            from_university_region: None,
            orob_region: None,
            from_senator_region: None,
            focus_department: None,
            from_representatives_region: None,
            geopolitics: None,
            from_embassy_country: None,
            from_institution: None,
            official_site: None,
            from_university: None,
            from_senator: None,
            from_news_agency: None,
            from_journal: None,
            orob: None,
            from_department: None,
            country: None,
            from_blog: None,
            from_university_news: None,
        }
    }

    /// The source's origin tag: every present value among its categorical
    /// fields, comma-joined in their fixed order; absent when none is
    /// present.
    pub fn get_from(&self) -> (r: Option<String>)
        ensures
            opt_view(r) == spec_source_origin(*self),
    {
        let mut acc = String::new();
        let mut any = false;
        let mut parts: Ghost<Seq<Seq<char>>> = Ghost(Seq::empty());
        proof {
            assert(Seq::<Seq<char>>::empty() + opt_part(self.from_blog) =~= opt_part(
                self.from_blog,
            ));
        }
        parts = tag_push(&mut acc, &mut any, &self.from_blog, parts);
        parts = tag_push(&mut acc, &mut any, &self.from_bank, parts);
        parts = tag_push(&mut acc, &mut any, &self.from_department, parts);
        parts = tag_push(&mut acc, &mut any, &self.from_journal, parts);
        parts = tag_push(&mut acc, &mut any, &self.from_institution, parts);
        parts = tag_push(&mut acc, &mut any, &self.from_senator, parts);
        parts = tag_push(&mut acc, &mut any, &self.from_department_country, parts);
        parts = tag_push(&mut acc, &mut any, &self.from_embassy_country, parts);
        parts = tag_push(&mut acc, &mut any, &self.from_embassy_located, parts);
        parts = tag_push(&mut acc, &mut any, &self.from_facebook, parts);
        parts = tag_push(&mut acc, &mut any, &self.from_news_agency, parts);
        parts = tag_push(&mut acc, &mut any, &self.from_organization, parts);
        parts = tag_push(&mut acc, &mut any, &self.from_representatives, parts);
        parts = tag_push(&mut acc, &mut any, &self.from_representatives_region, parts);
        parts = tag_push(&mut acc, &mut any, &self.from_senator_region, parts);
        parts = tag_push(&mut acc, &mut any, &self.from_twitter, parts);
        parts = tag_push(&mut acc, &mut any, &self.from_university, parts);
        parts = tag_push(&mut acc, &mut any, &self.from_university_region, parts);
        parts = tag_push(&mut acc, &mut any, &self.from_web, parts);
        assert(parts@ == source_origin_parts(*self));
        if any {
            Some(acc)
        } else {
            None
        }
    }
}

impl Default for Source {
    fn default() -> (r: Source)
        ensures
            r == Source::blank(),
    {
        Source {
            geography: None,
            from_organization: None,
            from_department_country: None,
            from_facebook: None,
            from_twitter: None,
            name: None,
            from_web: None,
            from_representatives: None,
            from_embassy_located: None,
            from_bank: None,
            from_university_region: None,
            orob_region: None,
            from_senator_region: None,
            focus_department: None,
            from_representatives_region: None,
            geopolitics: None,
            from_embassy_country: None,
            from_institution: None,
            official_site: None,
            from_university: None,
            from_senator: None,
            from_news_agency: None,
            from_journal: None,
            orob: None,
            from_department: None,
            country: None,
            from_blog: None,
            from_university_news: None,
        }
    }
}

impl People {
    /// Every field absent and no opinions.
    pub open spec fn is_blank(self) -> bool {
        &&& self.geography is None
        &&& self.from_tibet is None
        &&& self.identity_entertainment is None
        &&& self.identity_refugee is None
        &&& self.from_uyghur is None
        &&& self.twitter is None
        &&& self.youtube_url is None
        &&& self.information is None
        &&& self.identity_crime is None
        &&& self.fb_shot is None
        &&& self.from_congressman_state is None
        &&& self.name is None
        &&& self.from_media is None
        &&& self.twitter_acc is None
        &&& self.from_congressman_district is None
        &&& self.name_clean is None
        &&& self.from_expert is None
        &&& self.from_congressman is None
        &&& self.from_congressman_period is None
        &&& self.identity is None
        &&& self.identity_military is None
        &&& self.fb is None
        &&& self.orob_region is None
        &&& self.identity_business is None
        &&& self.identity_expert is None
        &&& self.geopolitics is None
        &&& self.identity_media is None
        &&& self.identity_religion is None
        &&& self.title is None
        &&& self.from_congressman_party is None
        &&& self.identity_activist is None
        &&& self.from_topic is None
        &&& self.orob is None
        &&& self.identity_politician is None
        &&& self.expression is None
        &&& self.identity_judge is None
        &&& self.identity_student is None
        &&& self.country is None
        &&& self.identity_terrorist is None
        &&& self.identity_sports is None
        &&& self.identity_lawyer is None
        &&& self.opinion@ == Seq::<Opinion>::empty()
    }

    /// The person's identity tag: every present value among the identity
    /// fields, comma-joined in their fixed order; absent when none is
    /// present.
    pub fn get_identity(&self) -> (r: Option<String>)
        ensures
            opt_view(r) == spec_people_identity(*self),
    {
        let mut acc = String::new();
        let mut any = false;
        let mut parts: Ghost<Seq<Seq<char>>> = Ghost(Seq::empty());
        proof {
            assert(Seq::<Seq<char>>::empty() + opt_part(self.identity_entertainment) =~= opt_part(
                self.identity_entertainment,
            ));
        }
        parts = tag_push(&mut acc, &mut any, &self.identity_entertainment, parts);
        parts = tag_push(&mut acc, &mut any, &self.identity_refugee, parts);
        parts = tag_push(&mut acc, &mut any, &self.identity_crime, parts);
        parts = tag_push(&mut acc, &mut any, &self.identity_military, parts);
        parts = tag_push(&mut acc, &mut any, &self.identity_business, parts);
        parts = tag_push(&mut acc, &mut any, &self.identity_expert, parts);
        parts = tag_push(&mut acc, &mut any, &self.identity_media, parts);
        parts = tag_push(&mut acc, &mut any, &self.identity_religion, parts);
        parts = tag_push(&mut acc, &mut any, &self.identity_activist, parts);
        parts = tag_push(&mut acc, &mut any, &self.identity_politician, parts);
        parts = tag_push(&mut acc, &mut any, &self.identity_judge, parts);
        parts = tag_push(&mut acc, &mut any, &self.identity_student, parts);
        parts = tag_push(&mut acc, &mut any, &self.identity_terrorist, parts);
        parts = tag_push(&mut acc, &mut any, &self.identity_sports, parts);
        parts = tag_push(&mut acc, &mut any, &self.identity_lawyer, parts);
        assert(parts@ == people_identity_parts(*self));
        if any {
            Some(acc)
        } else {
            None
        }
    }

    /// The person's origin tag: every present value among the origin fields,
    /// comma-joined in their fixed order — the congressional period only
    /// when it is not the word `None`; absent when nothing is taken.
    pub fn get_from(&self) -> (r: Option<String>)
        ensures
            opt_view(r) == spec_people_origin(*self),
    {
        let mut acc = String::new();
        let mut any = false;
        let mut parts: Ghost<Seq<Seq<char>>> = Ghost(Seq::empty());
        proof {
            assert(Seq::<Seq<char>>::empty() + opt_part(self.from_tibet) =~= opt_part(
                self.from_tibet,
            ));
        }
        parts = tag_push(&mut acc, &mut any, &self.from_tibet, parts);
        parts = tag_push(&mut acc, &mut any, &self.from_uyghur, parts);
        parts = tag_push(&mut acc, &mut any, &self.from_congressman_state, parts);
        parts = tag_push(&mut acc, &mut any, &self.from_media, parts);
        parts = tag_push(&mut acc, &mut any, &self.from_congressman_district, parts);
        parts = tag_push(&mut acc, &mut any, &self.from_expert, parts);
        parts = tag_push(&mut acc, &mut any, &self.from_congressman, parts);
        parts = tag_push_unless_none(&mut acc, &mut any, &self.from_congressman_period, parts);
        parts = tag_push(&mut acc, &mut any, &self.from_congressman_party, parts);
        parts = tag_push(&mut acc, &mut any, &self.from_topic, parts);
        assert(parts@ == people_origin_parts(*self));
        if any {
            Some(acc)
        } else {
            None
        }
    }
}

impl Default for People {
    fn default() -> (r: People)
        ensures
            r.is_blank(),
    {
        People {
            geography: None,
            from_tibet: None,
            identity_entertainment: None,
            identity_refugee: None,
            from_uyghur: None,
            twitter: None,
            youtube_url: None,
            information: None,
            identity_crime: None,
            fb_shot: None,
            from_congressman_state: None,
            name: None,
            from_media: None,
            twitter_acc: None,
            from_congressman_district: None,
            name_clean: None,
            from_expert: None,
            from_congressman: None,
            from_congressman_period: None,
            identity: None,
            identity_military: None,
            fb: None,
            orob_region: None,
            identity_business: None,
            identity_expert: None,
            geopolitics: None,
            identity_media: None,
            identity_religion: None,
            title: None,
            from_congressman_party: None,
            identity_activist: None,
            from_topic: None,
            orob: None,
            identity_politician: None,
            expression: None,
            identity_judge: None,
            identity_student: None,
            country: None,
            identity_terrorist: None,
            identity_sports: None,
            identity_lawyer: None,
            opinion: Vec::new(),
        }
    }
}

impl Default for Root {
    fn default() -> (r: Root)
        ensures
            r.people.is_blank(),
            r.source@ == Seq::<Source>::empty(),
            r.headline is None,
            r.update_time is None,
    {
        Root {
            people: People::default(),
            headline: None,
            source: Vec::new(),
            original_site: None,
            time: None,
            section: None,
            keywords: None,
            abstract_field: None,
            topic: None,
            body: None,
            notes: None,
            further_information: None,
            label: None,
            peo_state: None,
            org_state: None,
            ori_state: None,
            by_state: None,
            peo_expression_state: None,
            headline_classification_state: None,
            keywords_state: None,
            abstract_state: None,
            topic_sentence_state: None,
            topic_sentence_classification_state: None,
            expression_classification_state: None,
            update_time: None,
            media_id: None,
        }
    }
}

} // verus!
