//! What the verdicts of the search parameters say, stated over the listed
//! values position by position.

use vstd::prelude::*;

use crate::filters::{
    passes, spec_cover_locale, spec_cover_manga_ids, spec_cover_uploaders, spec_manga_artists,
    spec_manga_author_or_artist, spec_manga_authors, spec_manga_content_rating,
    spec_manga_created_at_since, spec_manga_demographic, spec_manga_excluded_original_language,
    spec_manga_excluded_tags, spec_manga_included_tags, spec_manga_original_language,
    spec_manga_status, spec_manga_title, spec_manga_updated_at_since, spec_manga_year,
    CoverListDataPullFilterParams, MangaListDataPullFilterParams, Validate,
};
use crate::model::{
    first_of_type, ids_of_type, CoverEntry, MangaEntry, Relationship, RelationshipType,
    TagSearchMode,
};

verus! {

/// A manga is accepted exactly when none of the fourteen verdicts refuses it.
pub proof fn law_manga_accepted_iff_no_refusal(p: MangaListDataPullFilterParams, m: MangaEntry)
    ensures
        p.spec_is_valid(m) <==> {
            &&& spec_manga_title(p, m) != Some(false)
            &&& spec_manga_author_or_artist(p, m) != Some(false)
            &&& spec_manga_authors(p, m) != Some(false)
            &&& spec_manga_artists(p, m) != Some(false)
            &&& spec_manga_year(p, m) != Some(false)
            &&& spec_manga_included_tags(p, m) != Some(false)
            &&& spec_manga_excluded_tags(p, m) != Some(false)
            &&& spec_manga_status(p, m) != Some(false)
            &&& spec_manga_original_language(p, m) != Some(false)
            &&& spec_manga_excluded_original_language(p, m) != Some(false)
            &&& spec_manga_demographic(p, m) != Some(false)
            &&& spec_manga_content_rating(p, m) != Some(false)
            &&& spec_manga_created_at_since(p, m) != Some(false)
            &&& spec_manga_updated_at_since(p, m) != Some(false)
        },
{
}

/// On the content rating, the verdict is none when no rating is listed or the manga
/// has none; otherwise whether the manga's rating is at some position of the
/// list.
pub proof fn law_content_rating_verdict(p: MangaListDataPullFilterParams, m: MangaEntry)
    ensures
        p.content_rating@.len() == 0 || m.content_rating is None ==> spec_manga_content_rating(
            p,
            m,
        ) is None,
        forall|i: int|
            0 <= i < p.content_rating@.len() && m.content_rating == Some(
                #[trigger] p.content_rating@[i],
            ) ==> spec_manga_content_rating(p, m) == Some(true),
        p.content_rating@.len() > 0 && m.content_rating is Some && (forall|i: int|
            0 <= i < p.content_rating@.len() ==> m.content_rating != Some(
                #[trigger] p.content_rating@[i],
            )) ==> spec_manga_content_rating(p, m) == Some(false),
{
    if p.content_rating@.len() > 0 && m.content_rating is Some {
        let c = m.content_rating->0;
        if p.content_rating@.contains(c) {
            let i = choose|i: int| 0 <= i < p.content_rating@.len() && p.content_rating@[i] == c;
            assert(m.content_rating == Some(p.content_rating@[i]));
        }
    }
}

/// On the status, the verdict is none when no status is listed; otherwise whether the
/// manga's status is at some position of the list.
pub proof fn law_status_verdict(p: MangaListDataPullFilterParams, m: MangaEntry)
    ensures
        p.status@.len() == 0 ==> spec_manga_status(p, m) is None,
        forall|i: int|
            0 <= i < p.status@.len() && m.status == #[trigger] p.status@[i] ==> spec_manga_status(
                p,
                m,
            ) == Some(true),
        p.status@.len() > 0 && (forall|i: int|
            0 <= i < p.status@.len() ==> m.status != #[trigger] p.status@[i]) ==> spec_manga_status(
            p,
            m,
        ) == Some(false),
{
    if p.status@.contains(m.status) {
        let i = choose|i: int| 0 <= i < p.status@.len() && p.status@[i] == m.status;
        assert(m.status == p.status@[i]);
    }
}

/// On the demographic, the verdict is none when no demographic is listed; a manga
/// without one is refused; otherwise whether its demographic is at some
/// position of the list.
pub proof fn law_demographic_verdict(p: MangaListDataPullFilterParams, m: MangaEntry)
    ensures
        p.publication_demographic@.len() == 0 ==> spec_manga_demographic(p, m) is None,
        p.publication_demographic@.len() > 0 && m.publication_demographic is None
            ==> spec_manga_demographic(p, m) == Some(false),
        forall|i: int|
            0 <= i < p.publication_demographic@.len() && m.publication_demographic == Some(
                #[trigger] p.publication_demographic@[i],
            ) ==> spec_manga_demographic(p, m) == Some(true),
        p.publication_demographic@.len() > 0 && (forall|i: int|
            0 <= i < p.publication_demographic@.len() ==> m.publication_demographic != Some(
                #[trigger] p.publication_demographic@[i],
            )) ==> spec_manga_demographic(p, m) == Some(false),
{
    if let Some(d) = m.publication_demographic {
        if p.publication_demographic@.contains(d) {
            let i = choose|i: int|
                0 <= i < p.publication_demographic@.len() && p.publication_demographic@[i] == d;
            assert(m.publication_demographic == Some(p.publication_demographic@[i]));
        }
    }
}

/// On the original language, the verdict is none when no language is listed;
/// otherwise whether the manga's language is at some position of the list.
pub proof fn law_original_language_verdict(p: MangaListDataPullFilterParams, m: MangaEntry)
    ensures
        p.original_language@.len() == 0 ==> spec_manga_original_language(p, m) is None,
        forall|i: int|
            0 <= i < p.original_language@.len() && m.original_language@ == (
            #[trigger] p.original_language@[i])@ ==> spec_manga_original_language(p, m) == Some(
                true,
            ),
        p.original_language@.len() > 0 && (forall|i: int|
            0 <= i < p.original_language@.len() ==> m.original_language@ != (
            #[trigger] p.original_language@[i])@) ==> spec_manga_original_language(p, m) == Some(
            false,
        ),
{
    let v = crate::model::views(p.original_language@);
    assert forall|i: int|
        0 <= i < p.original_language@.len() && m.original_language@ == (
        #[trigger] p.original_language@[i])@ implies spec_manga_original_language(p, m) == Some(
        true,
    ) by {
        assert(v[i] == m.original_language@);
    }
    if v.contains(m.original_language@) {
        let i = choose|i: int| 0 <= i < v.len() && v[i] == m.original_language@;
        assert(m.original_language@ == p.original_language@[i]@);
    }
}

/// The excluded-original-language verdict answers whether the manga's
/// language is at some position of that list (none when the list is empty).
pub proof fn law_excluded_original_language_verdict(p: MangaListDataPullFilterParams, m: MangaEntry)
    ensures
        p.excluded_original_language@.len() == 0 ==> spec_manga_excluded_original_language(
            p,
            m,
        ) is None,
        forall|i: int|
            0 <= i < p.excluded_original_language@.len() && m.original_language@ == (
            #[trigger] p.excluded_original_language@[i])@
                ==> spec_manga_excluded_original_language(p, m) == Some(true),
        p.excluded_original_language@.len() > 0 && (forall|i: int|
            0 <= i < p.excluded_original_language@.len() ==> m.original_language@ != (
            #[trigger] p.excluded_original_language@[i])@)
            ==> spec_manga_excluded_original_language(p, m) == Some(false),
{
    let v = crate::model::views(p.excluded_original_language@);
    assert forall|i: int|
        0 <= i < p.excluded_original_language@.len() && m.original_language@ == (
        #[trigger] p.excluded_original_language@[i])@ implies spec_manga_excluded_original_language(
        p,
        m,
    ) == Some(true) by {
        assert(v[i] == m.original_language@);
    }
    if v.contains(m.original_language@) {
        let i = choose|i: int| 0 <= i < v.len() && v[i] == m.original_language@;
        assert(m.original_language@ == p.excluded_original_language@[i]@);
    }
}

/// The year and date verdicts: a year compares for equality when both are
/// known; a manga passes a date bound when it was created (or updated)
/// strictly after it, and a missing update date gives no verdict.
pub proof fn law_year_and_date_verdicts(p: MangaListDataPullFilterParams, m: MangaEntry)
    ensures
        p.year is None || m.year is None ==> spec_manga_year(p, m) is None,
        p.year is Some && m.year is Some ==> spec_manga_year(p, m) == Some(
            p.year->0 == m.year->0,
        ),
        p.created_at_since is None ==> spec_manga_created_at_since(p, m) is None,
        p.created_at_since matches Some(since) ==> spec_manga_created_at_since(p, m) == Some(
            since < m.created_at,
        ),
        p.updated_at_since is None || m.updated_at is None ==> spec_manga_updated_at_since(
            p,
            m,
        ) is None,
        p.updated_at_since is Some && m.updated_at is Some ==> spec_manga_updated_at_since(p, m)
            == Some(p.updated_at_since->0 < m.updated_at->0),
{
}

/// Whether `s` holds a relationship of kind `t` to `id`.
pub open spec fn relates_to<P>(s: Seq<Relationship<P>>, t: RelationshipType, id: u128) -> bool {
    exists|i: int| 0 <= i < s.len() && (#[trigger] s[i]).type_ == t && s[i].id == id
}

proof fn lemma_ids_of_type<P>(s: Seq<Relationship<P>>, t: RelationshipType, id: u128)
    ensures
        ids_of_type(s, t).contains(id) <==> relates_to(s, t, id),
    decreases s.len(),
{
    if s.len() > 0 {
        let u = s.drop_last();
        lemma_ids_of_type(u, t, id);
        if relates_to(s, t, id) {
            let i = choose|i: int| 0 <= i < s.len() && (#[trigger] s[i]).type_ == t && s[i].id == id;
            let w = ids_of_type(u, t);
            if i < u.len() {
                assert(u[i] == s[i]);
                assert(relates_to(u, t, id));
                let j = choose|j: int| 0 <= j < w.len() && w[j] == id;
                assert(ids_of_type(s, t)[j] == id);
            } else {
                assert(ids_of_type(s, t)[w.len() as int] == id);
            }
        }
        if ids_of_type(s, t).contains(id) {
            if s.last().type_ == t && s.last().id == id {
                assert(s[s.len() - 1] == s.last());
            } else {
                if s.last().type_ == t {
                    let j = choose|j: int|
                        0 <= j < ids_of_type(s, t).len() && ids_of_type(s, t)[j] == id;
                    assert(j < ids_of_type(u, t).len());
                    assert(ids_of_type(u, t)[j] == id);
                }
                assert(ids_of_type(u, t).contains(id));
                let i = choose|i: int| 0 <= i < u.len() && (#[trigger] u[i]).type_ == t && u[i].id == id;
                assert(s[i] == u[i]);
            }
        }
    }
}

/// On the author or artist, the verdict is none when nobody is asked for; otherwise
/// whether the manga relates to that person as an author or as an artist.
pub proof fn law_author_or_artist_verdict(p: MangaListDataPullFilterParams, m: MangaEntry)
    ensures
        p.author_or_artist is None ==> spec_manga_author_or_artist(p, m) is None,
        p.author_or_artist matches Some(id) ==> spec_manga_author_or_artist(p, m) == Some(
            relates_to(m.relationships@, RelationshipType::Author, id) || relates_to(
                m.relationships@,
                RelationshipType::Artist,
                id,
            ),
        ),
{
    if let Some(id) = p.author_or_artist {
        lemma_ids_of_type(m.relationships@, RelationshipType::Author, id);
        lemma_ids_of_type(m.relationships@, RelationshipType::Artist, id);
    }
}

/// Listing authors or artists never refuses a manga: the verdict is a pass
/// when some are listed and none otherwise.
pub proof fn law_author_and_artist_lists(p: MangaListDataPullFilterParams, m: MangaEntry)
    ensures
        p.authors@.len() > 0 ==> spec_manga_authors(p, m) == Some(true),
        p.authors@.len() == 0 ==> spec_manga_authors(p, m) is None,
        p.artists@.len() > 0 ==> spec_manga_artists(p, m) == Some(true),
        p.artists@.len() == 0 ==> spec_manga_artists(p, m) is None,
{
}

/// The tag verdicts. Included tags: none when none is listed; in `Or` mode
/// whether some listed tag is among the manga's tags, in the other modes a
/// pass. Excluded tags: none when none is listed; in `And` mode a refusal,
/// in the other modes a refusal exactly when some listed tag is among the
/// manga's tags.
pub proof fn law_tag_verdicts(p: MangaListDataPullFilterParams, m: MangaEntry)
    ensures
        p.included_tags@.len() == 0 ==> spec_manga_included_tags(p, m) is None,
        p.included_tags@.len() > 0 && p.included_tags_mode != Some(TagSearchMode::Or)
            ==> spec_manga_included_tags(p, m) == Some(true),
        p.included_tags@.len() > 0 && p.included_tags_mode == Some(TagSearchMode::Or)
            ==> spec_manga_included_tags(p, m) == Some(
            exists|i: int, j: int|
                0 <= i < p.included_tags@.len() && 0 <= j < m.tags@.len()
                    && #[trigger] p.included_tags@[i] == #[trigger] m.tags@[j],
        ),
        p.excluded_tags@.len() == 0 ==> spec_manga_excluded_tags(p, m) is None,
        p.excluded_tags@.len() > 0 && p.excluded_tags_mode == Some(TagSearchMode::And)
            ==> spec_manga_excluded_tags(p, m) == Some(false),
        p.excluded_tags@.len() > 0 && p.excluded_tags_mode != Some(TagSearchMode::And)
            ==> spec_manga_excluded_tags(p, m) == Some(
            !exists|i: int, j: int|
                0 <= i < p.excluded_tags@.len() && 0 <= j < m.tags@.len()
                    && #[trigger] p.excluded_tags@[i] == #[trigger] m.tags@[j],
        ),
{
}

/// The cover verdicts: a cover without a manga relationship, without an
/// uploader or without a locale is refused; otherwise each list, when not
/// empty, asks that the cover's manga, uploader or locale be at some
/// position of it.
pub proof fn law_cover_verdicts(p: CoverListDataPullFilterParams, c: CoverEntry)
    ensures
        first_of_type(c.relationships@, RelationshipType::Manga) is None ==> spec_cover_manga_ids(
            p,
            c,
        ) == Some(false),
        first_of_type(c.relationships@, RelationshipType::Manga) matches Some(rel) ==> (if p.manga_ids@.len() == 0 {
            spec_cover_manga_ids(p, c) is None
        } else {
            spec_cover_manga_ids(p, c) == Some(
                exists|i: int| 0 <= i < p.manga_ids@.len() && #[trigger] p.manga_ids@[i] == rel.id,
            )
        }),
        first_of_type(c.relationships@, RelationshipType::User) is None ==> spec_cover_uploaders(
            p,
            c,
        ) == Some(false),
        first_of_type(c.relationships@, RelationshipType::User) matches Some(rel) ==> (if p.uploader_ids@.len() == 0 {
            spec_cover_uploaders(p, c) is None
        } else {
            spec_cover_uploaders(p, c) == Some(
                exists|i: int| 0 <= i < p.uploader_ids@.len() && #[trigger] p.uploader_ids@[i] == rel.id,
            )
        }),
        c.locale is None ==> spec_cover_locale(p, c) == Some(false),
        c.locale matches Some(l) ==> (if p.locales@.len() == 0 {
            spec_cover_locale(p, c) is None
        } else {
            spec_cover_locale(p, c) == Some(
                exists|i: int| 0 <= i < p.locales@.len() && (#[trigger] p.locales@[i])@ == l@,
            )
        }),
        p.spec_is_valid(c) <==> spec_cover_manga_ids(p, c) != Some(false) && spec_cover_uploaders(
            p,
            c,
        ) != Some(false) && spec_cover_locale(p, c) != Some(false),
{
    if let Some(l) = c.locale {
        let v = crate::model::views(p.locales@);
        if v.contains(l@) {
            let i = choose|i: int| 0 <= i < v.len() && v[i] == l@;
            assert(p.locales@[i]@ == l@);
        }
        if exists|i: int| 0 <= i < p.locales@.len() && (#[trigger] p.locales@[i])@ == l@ {
            let i = choose|i: int| 0 <= i < p.locales@.len() && (#[trigger] p.locales@[i])@ == l@;
            assert(v[i] == l@);
        }
    }
}

} // verus!
