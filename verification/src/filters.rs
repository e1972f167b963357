//! Deciding whether a manga or a cover matches a set of search parameters.

use vstd::prelude::*;

use crate::builder::contains_id;
use crate::model::{
    contains_string, find_first_relationships, find_relationship_ids, first_of_type, ids_of_type,
    views, ContentRating, CoverEntry, Demographic, MangaEntry, MangaStatus, RelationshipType,
    TagSearchMode,
};
use crate::regex_calls::{compile_regex, is_match, regex_is_match, regex_is_valid, CompiledRegex};

verus! {

/// Says whether an input matches the value.
pub trait Validate<T> {
    spec fn spec_is_valid(&self, input: T) -> bool;

    fn is_valid(&self, input: &T) -> (r: bool)
        ensures
            r == self.spec_is_valid(*input),
    ;
}

/// Says whether a value relates to an input.
pub trait Related<T> {
    spec fn spec_rlted(&self, data: T) -> bool;

    fn rlted(&self, data: &T) -> (r: bool)
        ensures
            r == self.spec_rlted(*data),
    ;
}

/// Says whether a value relates to an input, when it can tell.
pub trait PartialRelated<T> {
    spec fn spec_prt_rlted(&self, data: T) -> Option<bool>;

    fn prt_rlted(&self, data: &T) -> (r: Option<bool>)
        ensures
            r == self.spec_prt_rlted(*data),
    ;
}

impl<T, S: Related<T>> PartialRelated<T> for S {
    open spec fn spec_prt_rlted(&self, data: T) -> Option<bool> {
        Some(self.spec_rlted(data))
    }

    fn prt_rlted(&self, data: &T) -> (r: Option<bool>) {
        Some(self.rlted(data))
    }
}

/// The inputs of `items` that `p` accepts, in order.
pub open spec fn filtered<T, P: Validate<T>>(items: Seq<T>, p: P) -> Seq<T>
    decreases items.len(),
{
    if items.len() == 0 {
        Seq::empty()
    } else if p.spec_is_valid(items.last()) {
        filtered(items.drop_last(), p).push(items.last())
    } else {
        filtered(items.drop_last(), p)
    }
}

/// Keeps the inputs that `param` accepts, in order.
pub fn filter_items<T, P: Validate<T>>(items: Vec<T>, param: &P) -> (r: Vec<T>)
    ensures
        r@ == filtered(items@, *param),
{
    let ghost all = items@;
    let mut kept: Vec<T> = Vec::new();
    assert(all.take(0) =~= Seq::<T>::empty());
    for x in it: items
        invariant
            it.seq() == all,
            kept@ == filtered(all.take(it.index() as int), *param),
    {
        assert(all.take(it.index() + 1).drop_last() =~= all.take(it.index() as int));
        if param.is_valid(&x) {
            kept.push(x);
        }
    }
    assert(all.take(all.len() as int) =~= all);
    kept
}

/// Filters a collection by parameters that accept or refuse each item.
pub trait IntoFiltered<T, P: Validate<T>>: Sized {
    /// The items of the collection, in order.
    spec fn filter_input(&self) -> Seq<T>;

    /// The items that `param` accepts, in order.
    fn to_filtered(self, param: P) -> (r: Vec<T>)
        ensures
            r@ == filtered(self.filter_input(), param),
    ;
}

impl<T, P: Validate<T>> IntoFiltered<T, P> for Vec<T> {
    open spec fn filter_input(&self) -> Seq<T> {
        self@
    }

    fn to_filtered(self, param: P) -> (r: Vec<T>) {
        filter_items(self, &param)
    }
}

/// An optional verdict passes when it is not a refusal.
pub open spec fn passes(o: Option<bool>) -> bool {
    o != Some(false)
}

/// Parameters that select covers.
#[derive(Debug)]
pub struct CoverListDataPullFilterParams {
    pub manga_ids: Vec<u128>,
    pub uploader_ids: Vec<u128>,
    pub locales: Vec<String>,
}

/// The verdict on the manga of a cover: refused without a manga
/// relationship, none when no manga is asked for.
pub open spec fn spec_cover_manga_ids(p: CoverListDataPullFilterParams, c: CoverEntry) -> Option<bool> {
    match first_of_type(c.relationships@, RelationshipType::Manga) {
        None => Some(false),
        Some(m) => if p.manga_ids@.len() > 0 {
            Some(p.manga_ids@.contains(m.id))
        } else {
            None
        },
    }
}

/// The verdict on the uploader of a cover: refused without a user
/// relationship, none when no uploader is asked for.
pub open spec fn spec_cover_uploaders(p: CoverListDataPullFilterParams, c: CoverEntry) -> Option<bool> {
    match first_of_type(c.relationships@, RelationshipType::User) {
        None => Some(false),
        Some(u) => if p.uploader_ids@.len() > 0 {
            Some(p.uploader_ids@.contains(u.id))
        } else {
            None
        },
    }
}

/// The verdict on the locale of a cover: refused without a locale, none when
/// no locale is asked for.
pub open spec fn spec_cover_locale(p: CoverListDataPullFilterParams, c: CoverEntry) -> Option<bool> {
    match c.locale {
        None => Some(false),
        Some(l) => if p.locales@.len() > 0 {
            Some(views(p.locales@).contains(l@))
        } else {
            None
        },
    }
}

impl Default for CoverListDataPullFilterParams {
    /// Parameters that ask for nothing.
    fn default() -> (r: CoverListDataPullFilterParams)
        ensures
            r.manga_ids@.len() == 0,
            r.uploader_ids@.len() == 0,
            r.locales@.len() == 0,
    {
        CoverListDataPullFilterParams {
            manga_ids: Vec::new(),
            uploader_ids: Vec::new(),
            locales: Vec::new(),
        }
    }
}

impl CoverListDataPullFilterParams {
    /// Parameters that accept every cover with a manga, an uploader and a locale.
    pub fn new() -> (r: CoverListDataPullFilterParams)
        ensures
            r.manga_ids@.len() == 0,
            r.uploader_ids@.len() == 0,
            r.locales@.len() == 0,
    {
        CoverListDataPullFilterParams {
            manga_ids: Vec::new(),
            uploader_ids: Vec::new(),
            locales: Vec::new(),
        }
    }

    fn validate_manga_ids(&self, input: &CoverEntry) -> (r: Option<bool>)
        ensures
            r == spec_cover_manga_ids(*self, *input),
    {
        match find_first_relationships(&input.relationships, RelationshipType::Manga) {
            None => Some(false),
            Some(manga) => if self.manga_ids.len() > 0 {
                Some(contains_id(&self.manga_ids, manga.id))
            } else {
                None
            },
        }
    }

    fn validate_uploaders(&self, input: &CoverEntry) -> (r: Option<bool>)
        ensures
            r == spec_cover_uploaders(*self, *input),
    {
        match find_first_relationships(&input.relationships, RelationshipType::User) {
            None => Some(false),
            Some(user) => if self.uploader_ids.len() > 0 {
                Some(contains_id(&self.uploader_ids, user.id))
            } else {
                None
            },
        }
    }

    fn validate_locale(&self, input: &CoverEntry) -> (r: Option<bool>)
        ensures
            r == spec_cover_locale(*self, *input),
    {
        match &input.locale {
            None => Some(false),
            Some(locale) => if self.locales.len() > 0 {
                let found = contains_string(&self.locales, locale);
                proof {
                    if found {
                        let i = choose|i: int| 0 <= i < self.locales@.len() && #[trigger] self.locales@[i]@ == locale@;
                        assert(views(self.locales@)[i] == locale@);
                    } else {
                        assert forall|i: int| 0 <= i < views(self.locales@).len() implies views(self.locales@)[i] != locale@ by {
                            assert(self.locales@[i]@ != locale@);
                        }
                    }
                }
                Some(found)
            } else {
                None
            },
        }
    }
}

impl Validate<CoverEntry> for CoverListDataPullFilterParams {
    /// A cover is accepted when none of the locale, manga and uploader
    /// verdicts refuses it.
    open spec fn spec_is_valid(&self, input: CoverEntry) -> bool {
        &&& passes(spec_cover_locale(*self, input))
        &&& passes(spec_cover_manga_ids(*self, input))
        &&& passes(spec_cover_uploaders(*self, input))
    }

    fn is_valid(&self, input: &CoverEntry) -> (r: bool) {
        let a = self.validate_locale(input);
        let b = self.validate_manga_ids(input);
        let c = self.validate_uploaders(input);
        a != Some(false) && b != Some(false) && c != Some(false)
    }
}

/// Parameters that select mangas. A list left empty, or a value left unset,
/// asks nothing.
#[derive(Debug)]
pub struct MangaListDataPullFilterParams {
    pub title: Option<String>,
    pub author_or_artist: Option<u128>,
    pub authors: Vec<u128>,
    pub artists: Vec<u128>,
    pub year: Option<u16>,
    pub included_tags: Vec<u128>,
    pub included_tags_mode: Option<TagSearchMode>,
    pub excluded_tags: Vec<u128>,
    pub excluded_tags_mode: Option<TagSearchMode>,
    pub status: Vec<MangaStatus>,
    pub original_language: Vec<String>,
    pub excluded_original_language: Vec<String>,
    pub publication_demographic: Vec<Demographic>,
    pub content_rating: Vec<ContentRating>,
    pub created_at_since: Option<i128>,
    pub updated_at_since: Option<i128>,
    pub group: Option<u128>,
}

impl Default for MangaListDataPullFilterParams {
    /// Parameters that ask for nothing.
    fn default() -> (r: MangaListDataPullFilterParams)
        ensures
            r.title is None,
            r.author_or_artist is None,
            r.authors@.len() == 0,
            r.artists@.len() == 0,
            r.year is None,
            r.included_tags@.len() == 0,
            r.included_tags_mode is None,
            r.excluded_tags@.len() == 0,
            r.excluded_tags_mode is None,
            r.status@.len() == 0,
            r.original_language@.len() == 0,
            r.excluded_original_language@.len() == 0,
            r.publication_demographic@.len() == 0,
            r.content_rating@.len() == 0,
            r.created_at_since is None,
            r.updated_at_since is None,
            r.group is None,
    {
        MangaListDataPullFilterParams {
            title: None,
            author_or_artist: None,
            authors: Vec::new(),
            artists: Vec::new(),
            year: None,
            included_tags: Vec::new(),
            included_tags_mode: None,
            excluded_tags: Vec::new(),
            excluded_tags_mode: None,
            status: Vec::new(),
            original_language: Vec::new(),
            excluded_original_language: Vec::new(),
            publication_demographic: Vec::new(),
            content_rating: Vec::new(),
            created_at_since: None,
            updated_at_since: None,
            group: None,
        }
    }
}

/// Whether the pattern matches one of the titles or alternative titles.
pub open spec fn title_matches(pattern: Seq<char>, m: MangaEntry) -> bool {
    ||| exists|i: int| 0 <= i < m.titles@.len() && regex_is_match(pattern, #[trigger] m.titles@[i]@)
    ||| exists|i: int, j: int|
        0 <= i < m.alt_titles@.len() && 0 <= j < m.alt_titles@[i]@.len() && regex_is_match(
            pattern,
            #[trigger] m.alt_titles@[i]@[j]@,
        )
}

/// The verdict on the title: none without a title or with a pattern that
/// does not compile.
pub open spec fn spec_manga_title(p: MangaListDataPullFilterParams, m: MangaEntry) -> Option<bool> {
    match p.title {
        None => None,
        Some(t) => if regex_is_valid(t@) {
            Some(title_matches(t@, m))
        } else {
            None
        },
    }
}

/// The verdict on the author or artist asked for: whether it is among the
/// authors or the artists.
pub open spec fn spec_manga_author_or_artist(p: MangaListDataPullFilterParams, m: MangaEntry) -> Option<bool> {
    match p.author_or_artist {
        None => None,
        Some(id) => Some(
            ids_of_type(m.relationships@, RelationshipType::Author).contains(id) || ids_of_type(
                m.relationships@,
                RelationshipType::Artist,
            ).contains(id),
        ),
    }
}

/// The verdict on the authors: the rule keeps the manga's authors that are
/// listed and asks that each of them be listed, so a list of authors never
/// refuses a manga.
pub open spec fn spec_manga_authors(p: MangaListDataPullFilterParams, m: MangaEntry) -> Option<bool> {
    if p.authors@.len() > 0 {
        Some(true)
    } else {
        None
    }
}

/// The verdict on the artists, which follows the same rule as the authors.
pub open spec fn spec_manga_artists(p: MangaListDataPullFilterParams, m: MangaEntry) -> Option<bool> {
    if p.artists@.len() > 0 {
        Some(true)
    } else {
        None
    }
}

/// The verdict on the year: none unless both the year asked for and the
/// manga's year are known.
pub open spec fn spec_manga_year(p: MangaListDataPullFilterParams, m: MangaEntry) -> Option<bool> {
    match (p.year, m.year) {
        (Some(y), Some(iy)) => Some(y == iy),
        _ => None,
    }
}

/// Whether one of the listed tags is among the manga's tags.
pub open spec fn any_tag_present(listed: Seq<u128>, tags: Seq<u128>) -> bool {
    exists|i: int| 0 <= i < listed.len() && tags.contains(#[trigger] listed[i])
}

/// The verdict on the included tags. In `And` mode (the default) the rule
/// keeps the manga's tags that are listed and asks that each be listed, so
/// it passes; in `Or` mode one listed tag must be present.
pub open spec fn spec_manga_included_tags(p: MangaListDataPullFilterParams, m: MangaEntry) -> Option<bool> {
    if p.included_tags@.len() > 0 {
        match p.included_tags_mode {
            Some(TagSearchMode::Or) => Some(any_tag_present(p.included_tags@, m.tags@)),
            _ => Some(true),
        }
    } else {
        None
    }
}

/// The verdict on the excluded tags: the negation of the same test, with
/// `Or` as the default mode.
pub open spec fn spec_manga_excluded_tags(p: MangaListDataPullFilterParams, m: MangaEntry) -> Option<bool> {
    if p.excluded_tags@.len() > 0 {
        match p.excluded_tags_mode {
            Some(TagSearchMode::And) => Some(false),
            _ => Some(!any_tag_present(p.excluded_tags@, m.tags@)),
        }
    } else {
        None
    }
}

/// The verdict on the status: whether it is listed.
pub open spec fn spec_manga_status(p: MangaListDataPullFilterParams, m: MangaEntry) -> Option<bool> {
    if p.status@.len() > 0 {
        Some(p.status@.contains(m.status))
    } else {
        None
    }
}

/// The verdict on the original language: whether it is listed.
pub open spec fn spec_manga_original_language(p: MangaListDataPullFilterParams, m: MangaEntry) -> Option<bool> {
    if p.original_language@.len() > 0 {
        Some(views(p.original_language@).contains(m.original_language@))
    } else {
        None
    }
}

/// The verdict on the excluded original languages: the rule answers whether
/// the original language is in that list.
pub open spec fn spec_manga_excluded_original_language(
    p: MangaListDataPullFilterParams,
    m: MangaEntry,
) -> Option<bool> {
    if p.excluded_original_language@.len() > 0 {
        Some(views(p.excluded_original_language@).contains(m.original_language@))
    } else {
        None
    }
}

/// The verdict on the demographic: a manga without one is refused.
pub open spec fn spec_manga_demographic(p: MangaListDataPullFilterParams, m: MangaEntry) -> Option<bool> {
    if p.publication_demographic@.len() > 0 {
        match m.publication_demographic {
            None => Some(false),
            Some(d) => Some(p.publication_demographic@.contains(d)),
        }
    } else {
        None
    }
}

/// The verdict on the content rating: none for a manga without one.
pub open spec fn spec_manga_content_rating(p: MangaListDataPullFilterParams, m: MangaEntry) -> Option<bool> {
    if p.content_rating@.len() > 0 {
        match m.content_rating {
            None => None,
            Some(c) => Some(p.content_rating@.contains(c)),
        }
    } else {
        None
    }
}

/// The verdict on the creation date: whether the manga was created after it.
pub open spec fn spec_manga_created_at_since(p: MangaListDataPullFilterParams, m: MangaEntry) -> Option<bool> {
    match p.created_at_since {
        None => None,
        Some(since) => Some(since < m.created_at),
    }
}

/// The verdict on the update date: none unless the manga has one.
pub open spec fn spec_manga_updated_at_since(p: MangaListDataPullFilterParams, m: MangaEntry) -> Option<bool> {
    match (p.updated_at_since, m.updated_at) {
        (Some(since), Some(u)) => Some(since < u),
        _ => None,
    }
}

fn status_listed(v: &Vec<MangaStatus>, x: MangaStatus) -> (r: bool)
    ensures
        r == v@.contains(x),
{
    let mut i: usize = 0;
    while i < v.len()
        invariant
            0 <= i <= v@.len(),
            forall|j: int| 0 <= j < i ==> v@[j] != x,
        decreases v@.len() - i,
    {
        if v[i] == x {
            return true;
        }
        i = i + 1;
    }
    false
}

fn demographic_listed(v: &Vec<Demographic>, x: Demographic) -> (r: bool)
    ensures
        r == v@.contains(x),
{
    let mut i: usize = 0;
    while i < v.len()
        invariant
            0 <= i <= v@.len(),
            forall|j: int| 0 <= j < i ==> v@[j] != x,
        decreases v@.len() - i,
    {
        if v[i] == x {
            return true;
        }
        i = i + 1;
    }
    false
}

fn rating_listed(v: &Vec<ContentRating>, x: ContentRating) -> (r: bool)
    ensures
        r == v@.contains(x),
{
    let mut i: usize = 0;
    while i < v.len()
        invariant
            0 <= i <= v@.len(),
            forall|j: int| 0 <= j < i ==> v@[j] != x,
        decreases v@.len() - i,
    {
        if v[i] == x {
            return true;
        }
        i = i + 1;
    }
    false
}

fn language_listed(v: &Vec<String>, x: &String) -> (r: bool)
    ensures
        r == views(v@).contains(x@),
{
    let found = contains_string(v, x);
    proof {
        if found {
            let i = choose|i: int| 0 <= i < v@.len() && #[trigger] v@[i]@ == x@;
            assert(views(v@)[i] == x@);
        } else {
            assert forall|i: int| 0 <= i < views(v@).len() implies views(v@)[i] != x@ by {
                assert(v@[i]@ != x@);
            }
        }
    }
    found
}

fn any_listed_tag_present(listed: &Vec<u128>, tags: &Vec<u128>) -> (r: bool)
    ensures
        r == any_tag_present(listed@, tags@),
{
    let mut i: usize = 0;
    while i < listed.len()
        invariant
            0 <= i <= listed@.len(),
            forall|j: int| 0 <= j < i ==> !tags@.contains(#[trigger] listed@[j]),
        decreases listed@.len() - i,
    {
        if contains_id(tags, listed[i]) {
            return true;
        }
        i = i + 1;
    }
    false
}

fn any_text_matches(re: &CompiledRegex, texts: &Vec<String>) -> (r: bool)
    ensures
        r == exists|i: int| 0 <= i < texts@.len() && regex_is_match(re@, #[trigger] texts@[i]@),
{
    let mut i: usize = 0;
    while i < texts.len()
        invariant
            0 <= i <= texts@.len(),
            forall|j: int| 0 <= j < i ==> !regex_is_match(re@, #[trigger] texts@[j]@),
        decreases texts@.len() - i,
    {
        if is_match(re, texts[i].as_str()) {
            return true;
        }
        i = i + 1;
    }
    false
}

impl MangaListDataPullFilterParams {
    fn validate_title(&self, input: &MangaEntry) -> (r: Option<bool>)
        ensures
            r == spec_manga_title(*self, *input),
    {
        match &self.title {
            None => None,
            Some(t) => match compile_regex(t.as_str()) {
                Err(_) => None,
                Ok(re) => {
                    let mut found = any_text_matches(&re, &input.titles);
                    let mut i: usize = 0;
                    while i < input.alt_titles.len() && !found
                        invariant
                            0 <= i <= input.alt_titles@.len(),
                            re@ == t@,
                            found == ((exists|k: int|
                                0 <= k < input.titles@.len() && regex_is_match(
                                    t@,
                                    #[trigger] input.titles@[k]@,
                                )) || exists|a: int, b: int|
                                0 <= a < i && 0 <= b < input.alt_titles@[a]@.len()
                                    && regex_is_match(t@, #[trigger] input.alt_titles@[a]@[b]@)),
                        decreases input.alt_titles@.len() - i,
                    {
                        let here = any_text_matches(&re, &input.alt_titles[i]);
                        proof {
                            if here {
                                let b = choose|b: int|
                                    0 <= b < input.alt_titles@[i as int]@.len() && regex_is_match(
                                        re@,
                                        #[trigger] input.alt_titles@[i as int]@[b]@,
                                    );
                                assert(regex_is_match(t@, input.alt_titles@[i as int]@[b]@));
                            }
                        }
                        found = here;
                        i = i + 1;
                    }
                    Some(found)
                },
            },
        }
    }

    fn validate_author_or_artist(&self, input: &MangaEntry) -> (r: Option<bool>)
        ensures
            r == spec_manga_author_or_artist(*self, *input),
    {
        match self.author_or_artist {
            None => None,
            Some(id) => {
                let authors = find_relationship_ids(&input.relationships, RelationshipType::Author);
                if contains_id(&authors, id) {
                    Some(true)
                } else {
                    let artists = find_relationship_ids(
                        &input.relationships,
                        RelationshipType::Artist,
                    );
                    Some(contains_id(&artists, id))
                }
            },
        }
    }

    fn validate_authors(&self, input: &MangaEntry) -> (r: Option<bool>)
        ensures
            r == spec_manga_authors(*self, *input),
    {
        if self.authors.len() > 0 {
            let authors = find_relationship_ids(&input.relationships, RelationshipType::Author);
            Some(all_listed_of_listed(&authors, &self.authors))
        } else {
            None
        }
    }

    fn validate_artists(&self, input: &MangaEntry) -> (r: Option<bool>)
        ensures
            r == spec_manga_artists(*self, *input),
    {
        if self.artists.len() > 0 {
            let artists = find_relationship_ids(&input.relationships, RelationshipType::Artist);
            Some(all_listed_of_listed(&artists, &self.artists))
        } else {
            None
        }
    }

    fn validate_year(&self, input: &MangaEntry) -> (r: Option<bool>)
        ensures
            r == spec_manga_year(*self, *input),
    {
        match (self.year, input.year) {
            (Some(y), Some(iy)) => Some(y == iy),
            _ => None,
        }
    }

    fn validate_included_tags(&self, input: &MangaEntry) -> (r: Option<bool>)
        ensures
            r == spec_manga_included_tags(*self, *input),
    {
        if self.included_tags.len() > 0 {
            match self.included_tags_mode {
                Some(TagSearchMode::Or) => Some(
                    any_listed_tag_present(&self.included_tags, &input.tags),
                ),
                _ => Some(all_listed_of_listed(&input.tags, &self.included_tags)),
            }
        } else {
            None
        }
    }

    fn validate_excluded_tags(&self, input: &MangaEntry) -> (r: Option<bool>)
        ensures
            r == spec_manga_excluded_tags(*self, *input),
    {
        if self.excluded_tags.len() > 0 {
            let res = match self.excluded_tags_mode {
                Some(TagSearchMode::And) => all_listed_of_listed(&input.tags, &self.excluded_tags),
                _ => any_listed_tag_present(&self.excluded_tags, &input.tags),
            };
            Some(!res)
        } else {
            None
        }
    }

    fn validate_status(&self, input: &MangaEntry) -> (r: Option<bool>)
        ensures
            r == spec_manga_status(*self, *input),
    {
        if self.status.len() > 0 {
            Some(status_listed(&self.status, input.status))
        } else {
            None
        }
    }

    fn validate_original_language(&self, input: &MangaEntry) -> (r: Option<bool>)
        ensures
            r == spec_manga_original_language(*self, *input),
    {
        if self.original_language.len() > 0 {
            Some(language_listed(&self.original_language, &input.original_language))
        } else {
            None
        }
    }

    fn validate_excluded_original_language(&self, input: &MangaEntry) -> (r: Option<bool>)
        ensures
            r == spec_manga_excluded_original_language(*self, *input),
    {
        if self.excluded_original_language.len() > 0 {
            Some(language_listed(&self.excluded_original_language, &input.original_language))
        } else {
            None
        }
    }

    fn validate_publication_demographic(&self, input: &MangaEntry) -> (r: Option<bool>)
        ensures
            r == spec_manga_demographic(*self, *input),
    {
        if self.publication_demographic.len() > 0 {
            match input.publication_demographic {
                None => Some(false),
                Some(d) => Some(demographic_listed(&self.publication_demographic, d)),
            }
        } else {
            None
        }
    }

    fn validate_content_rating(&self, input: &MangaEntry) -> (r: Option<bool>)
        ensures
            r == spec_manga_content_rating(*self, *input),
    {
        if self.content_rating.len() > 0 {
            match input.content_rating {
                None => None,
                Some(c) => Some(rating_listed(&self.content_rating, c)),
            }
        } else {
            None
        }
    }

    fn validate_created_at_since(&self, input: &MangaEntry) -> (r: Option<bool>)
        ensures
            r == spec_manga_created_at_since(*self, *input),
    {
        match self.created_at_since {
            None => None,
            Some(since) => Some(since < input.created_at),
        }
    }

    fn validate_updated_at_since(&self, input: &MangaEntry) -> (r: Option<bool>)
        ensures
            r == spec_manga_updated_at_since(*self, *input),
    {
        match (self.updated_at_since, input.updated_at) {
            (Some(since), Some(u)) => Some(since < u),
            _ => None,
        }
    }
}

/// Keeps the entries of `items` that are in `listed` and tells whether each
/// of them is in `listed`, which it always is.
fn all_listed_of_listed(items: &Vec<u128>, listed: &Vec<u128>) -> (r: bool)
    ensures
        r,
{
    let mut kept: Vec<u128> = Vec::new();
    let mut i: usize = 0;
    while i < items.len()
        invariant
            0 <= i <= items@.len(),
            forall|j: int| 0 <= j < kept@.len() ==> listed@.contains(#[trigger] kept@[j]),
        decreases items@.len() - i,
    {
        if contains_id(listed, items[i]) {
            kept.push(items[i]);
        }
        i = i + 1;
    }
    let mut all = true;
    let mut k: usize = 0;
    while k < kept.len()
        invariant
            0 <= k <= kept@.len(),
            all,
            forall|j: int| 0 <= j < kept@.len() ==> listed@.contains(#[trigger] kept@[j]),
        decreases kept@.len() - k,
    {
        all = all && contains_id(listed, kept[k]);
        k = k + 1;
    }
    all
}

impl Validate<MangaEntry> for MangaListDataPullFilterParams {
    /// A manga is accepted when none of the verdicts refuses it.
    open spec fn spec_is_valid(&self, input: MangaEntry) -> bool {
        &&& passes(spec_manga_title(*self, input))
        &&& passes(spec_manga_artists(*self, input))
        &&& passes(spec_manga_author_or_artist(*self, input))
        &&& passes(spec_manga_authors(*self, input))
        &&& passes(spec_manga_content_rating(*self, input))
        &&& passes(spec_manga_created_at_since(*self, input))
        &&& passes(spec_manga_excluded_original_language(*self, input))
        &&& passes(spec_manga_excluded_tags(*self, input))
        &&& passes(spec_manga_included_tags(*self, input))
        &&& passes(spec_manga_original_language(*self, input))
        &&& passes(spec_manga_demographic(*self, input))
        &&& passes(spec_manga_status(*self, input))
        &&& passes(spec_manga_updated_at_since(*self, input))
        &&& passes(spec_manga_year(*self, input))
    }

    fn is_valid(&self, input: &MangaEntry) -> (r: bool) {
        let verdicts: [Option<bool>; 14] = [
            self.validate_title(input),
            self.validate_artists(input),
            self.validate_author_or_artist(input),
            self.validate_authors(input),
            self.validate_content_rating(input),
            self.validate_created_at_since(input),
            self.validate_excluded_original_language(input),
            self.validate_excluded_tags(input),
            self.validate_included_tags(input),
            self.validate_original_language(input),
            self.validate_publication_demographic(input),
            self.validate_status(input),
            self.validate_updated_at_since(input),
            self.validate_year(input),
        ];
        let mut valid = true;
        let mut i: usize = 0;
        while i < 14
            invariant
                0 <= i <= 14,
                valid == forall|j: int| 0 <= j < i ==> passes(#[trigger] verdicts@[j]),
            decreases 14 - i,
        {
            valid = valid && verdicts[i] != Some(false);
            i = i + 1;
        }
        valid
    }
}

} // verus!
