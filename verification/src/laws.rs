//! Properties that hold across the operations of the library.

use vstd::prelude::*;

use vstd::string::*;

use crate::archive::{
    chapter_entry_name, metadata_entry_name, mode_named, names_chapter, names_cover, names_manga,
    package_layout,
};
use crate::dirs::{
    spec_chapters_add, spec_covers_add, spec_data_dir_add, spec_mangas_add, DirsOptions,
};
use crate::paths::{
    components, head_component, lemma_scan_bound, normal_components, scan, spec_is_absolute,
    spec_starts_with,
};
use crate::builder::{
    chapter_added, chapter_images_cleared, every_manga_has_a_cover, manga_set, with_cover,
};
use crate::contents::{
    assembled_has, chapters_or_empty, covers_of, covers_or_empty, dedup, merged, PMangaObject,
    PackageContents,
};
use crate::filters::{
    filtered, passes, spec_manga_artists, spec_manga_author_or_artist, spec_manga_authors,
    spec_manga_content_rating, spec_manga_created_at_since, spec_manga_demographic,
    spec_manga_excluded_original_language, spec_manga_excluded_tags, spec_manga_included_tags,
    spec_manga_original_language, spec_manga_status, spec_manga_title, spec_manga_updated_at_since,
    spec_manga_year, MangaListDataPullFilterParams, Validate,
};
use crate::images::ChapterImagesData;
use crate::model::{ChapterEntry, CoverEntry, MangaEntry, Mode, Relationship, RelationshipType};
use crate::sort::{comes_before, distinct_positions, is_stable_order, positions_below, tied, KeyValue};
use crate::push::{
    expanded_of_kind, has_kind, required_kind, seeded_all, seeded_with, spec_required, spec_seed,
    without_kind, MangaRequiredRelationship,
};

verus! {

/// Two tables hold the same mangas, with the same covers and chapters.
pub open spec fn same_contents(a: Map<u128, PMangaObject>, b: Map<u128, PMangaObject>) -> bool {
    &&& a.dom() == b.dom()
    &&& forall|k: u128| #[trigger]
        a.contains_key(k) ==> a[k].covers@ == b[k].covers@ && a[k].chapters@ == b[k].chapters@
}

/// Filtering what was already filtered by the same parameters changes
/// nothing.
pub proof fn law_filter_idempotent<T, P: Validate<T>>(items: Seq<T>, p: P)
    ensures
        filtered(filtered(items, p), p) == filtered(items, p),
    decreases items.len(),
{
    if items.len() > 0 {
        law_filter_idempotent(items.drop_last(), p);
        let f = filtered(items.drop_last(), p);
        if p.spec_is_valid(items.last()) {
            assert(f.push(items.last()).drop_last() =~= f);
        }
    }
}

/// Every item that filtering keeps is accepted by the parameters, and no
/// more items are kept than were given.
pub proof fn law_filter_keeps_accepted<T, P: Validate<T>>(items: Seq<T>, p: P)
    ensures
        filtered(items, p).len() <= items.len(),
        forall|i: int| 0 <= i < filtered(items, p).len() ==> p.spec_is_valid(#[trigger] filtered(items, p)[i]),
    decreases items.len(),
{
    if items.len() > 0 {
        law_filter_keeps_accepted(items.drop_last(), p);
    }
}

/// Filtering keeps exactly the items that the parameters accept: an item
/// is in the result when it is among the items and accepted; a list whose
/// items are all accepted is kept whole.
pub proof fn law_filter_keeps_exactly_accepted<T, P: Validate<T>>(items: Seq<T>, p: P)
    ensures
        forall|x: T|
            #![trigger filtered(items, p).contains(x)]
            #![trigger items.contains(x)]
            filtered(items, p).contains(x) <==> items.contains(x) && p.spec_is_valid(x),
        (forall|i: int| 0 <= i < items.len() ==> p.spec_is_valid(#[trigger] items[i])) ==> filtered(
            items,
            p,
        ) == items,
    decreases items.len(),
{
    if items.len() > 0 {
        let u = items.drop_last();
        law_filter_keeps_exactly_accepted(u, p);
        let f = filtered(u, p);
        assert forall|x: T|
            #![trigger filtered(items, p).contains(x)]
            #![trigger items.contains(x)]
            filtered(items, p).contains(x) <==> items.contains(x) && p.spec_is_valid(x) by {
            if filtered(items, p).contains(x) {
                let i = choose|i: int| 0 <= i < filtered(items, p).len() && filtered(items, p)[i] == x;
                if i < f.len() {
                    assert(filtered(items, p)[i] == f[i]);
                    assert(f.contains(x));
                    let j = choose|j: int| 0 <= j < u.len() && u[j] == x;
                    assert(items[j] == x);
                } else {
                    assert(items[items.len() - 1] == x);
                }
            }
            if items.contains(x) && p.spec_is_valid(x) {
                let i = choose|i: int| 0 <= i < items.len() && items[i] == x;
                if i < u.len() {
                    assert(u[i] == x);
                    assert(f.contains(x));
                    let j = choose|j: int| 0 <= j < f.len() && f[j] == x;
                    assert(filtered(items, p)[j] == x);
                } else {
                    assert(filtered(items, p)[f.len() as int] == x);
                }
            }
        }
        if forall|i: int| 0 <= i < items.len() ==> p.spec_is_valid(#[trigger] items[i]) {
            assert forall|i: int| 0 <= i < u.len() implies p.spec_is_valid(#[trigger] u[i]) by {
                assert(u[i] == items[i]);
            }
            assert(p.spec_is_valid(items[items.len() - 1]));
            assert(u.push(items.last()) =~= items);
        }
    } else {
        assert(filtered(items, p) =~= items);
    }
}

/// Parameters that ask nothing accept every manga.
pub proof fn law_empty_manga_params_accept_all(p: MangaListDataPullFilterParams, m: MangaEntry)
    requires
        p.title is None,
        p.author_or_artist is None,
        p.authors@.len() == 0,
        p.artists@.len() == 0,
        p.year is None,
        p.included_tags@.len() == 0,
        p.excluded_tags@.len() == 0,
        p.status@.len() == 0,
        p.original_language@.len() == 0,
        p.excluded_original_language@.len() == 0,
        p.publication_demographic@.len() == 0,
        p.content_rating@.len() == 0,
        p.created_at_since is None,
        p.updated_at_since is None,
    ensures
        p.spec_is_valid(m),
{
}

/// Filtering by parameters that ask nothing keeps every manga, in order.
pub proof fn law_empty_manga_params_keep_all(items: Seq<MangaEntry>, p: MangaListDataPullFilterParams)
    requires
        p.title is None,
        p.author_or_artist is None,
        p.authors@.len() == 0,
        p.artists@.len() == 0,
        p.year is None,
        p.included_tags@.len() == 0,
        p.excluded_tags@.len() == 0,
        p.status@.len() == 0,
        p.original_language@.len() == 0,
        p.excluded_original_language@.len() == 0,
        p.publication_demographic@.len() == 0,
        p.content_rating@.len() == 0,
        p.created_at_since is None,
        p.updated_at_since is None,
    ensures
        filtered(items, p) == items,
    decreases items.len(),
{
    if items.len() > 0 {
        law_empty_manga_params_keep_all(items.drop_last(), p);
        law_empty_manga_params_accept_all(p, items.last());
        assert(items.drop_last().push(items.last()) =~= items);
    } else {
        assert(filtered(items, p) =~= items);
    }
}

/// `q` asks, of the fourteen criteria of manga parameters (numbered in the
/// order title, author or artist, authors, artists, year, included tags,
/// excluded tags, status, original language, excluded original languages,
/// demographic, content rating, creation date, update date), only criterion
/// `g`, and asks it as `p` does.
pub open spec fn keeps_only_criterion(
    p: MangaListDataPullFilterParams,
    q: MangaListDataPullFilterParams,
    g: int,
) -> bool {
    &&& if g == 0 { q.title == p.title } else { q.title is None }
    &&& if g == 1 { q.author_or_artist == p.author_or_artist } else { q.author_or_artist is None }
    &&& if g == 2 { q.authors@ == p.authors@ } else { q.authors@.len() == 0 }
    &&& if g == 3 { q.artists@ == p.artists@ } else { q.artists@.len() == 0 }
    &&& if g == 4 { q.year == p.year } else { q.year is None }
    &&& if g == 5 {
        q.included_tags@ == p.included_tags@ && q.included_tags_mode == p.included_tags_mode
    } else {
        q.included_tags@.len() == 0
    }
    &&& if g == 6 {
        q.excluded_tags@ == p.excluded_tags@ && q.excluded_tags_mode == p.excluded_tags_mode
    } else {
        q.excluded_tags@.len() == 0
    }
    &&& if g == 7 { q.status@ == p.status@ } else { q.status@.len() == 0 }
    &&& if g == 8 {
        q.original_language@ == p.original_language@
    } else {
        q.original_language@.len() == 0
    }
    &&& if g == 9 {
        q.excluded_original_language@ == p.excluded_original_language@
    } else {
        q.excluded_original_language@.len() == 0
    }
    &&& if g == 10 {
        q.publication_demographic@ == p.publication_demographic@
    } else {
        q.publication_demographic@.len() == 0
    }
    &&& if g == 11 { q.content_rating@ == p.content_rating@ } else { q.content_rating@.len() == 0 }
    &&& if g == 12 { q.created_at_since == p.created_at_since } else { q.created_at_since is None }
    &&& if g == 13 { q.updated_at_since == p.updated_at_since } else { q.updated_at_since is None }
}

/// Parameters that ask one criterion accept a manga exactly when that
/// criterion, asked within `p`, does not refuse it.
proof fn lemma_single_criterion(
    p: MangaListDataPullFilterParams,
    q: MangaListDataPullFilterParams,
    g: int,
    m: MangaEntry,
)
    requires
        0 <= g < 14,
        keeps_only_criterion(p, q, g),
    ensures
        q.spec_is_valid(m) == if g == 0 {
            passes(spec_manga_title(p, m))
        } else if g == 1 {
            passes(spec_manga_author_or_artist(p, m))
        } else if g == 2 {
            passes(spec_manga_authors(p, m))
        } else if g == 3 {
            passes(spec_manga_artists(p, m))
        } else if g == 4 {
            passes(spec_manga_year(p, m))
        } else if g == 5 {
            passes(spec_manga_included_tags(p, m))
        } else if g == 6 {
            passes(spec_manga_excluded_tags(p, m))
        } else if g == 7 {
            passes(spec_manga_status(p, m))
        } else if g == 8 {
            passes(spec_manga_original_language(p, m))
        } else if g == 9 {
            passes(spec_manga_excluded_original_language(p, m))
        } else if g == 10 {
            passes(spec_manga_demographic(p, m))
        } else if g == 11 {
            passes(spec_manga_content_rating(p, m))
        } else if g == 12 {
            passes(spec_manga_created_at_since(p, m))
        } else {
            passes(spec_manga_updated_at_since(p, m))
        },
{
}

/// The criteria of manga parameters combine by "and": parameters accept a
/// manga exactly when each of the fourteen parameters that ask one of their
/// criteria alone accepts it. So asking one more criterion never lets more
/// mangas through.
pub proof fn law_manga_criteria_combine_by_and(
    p: MangaListDataPullFilterParams,
    qs: Seq<MangaListDataPullFilterParams>,
    m: MangaEntry,
)
    requires
        qs.len() == 14,
        forall|g: int| 0 <= g < 14 ==> keeps_only_criterion(p, #[trigger] qs[g], g),
    ensures
        p.spec_is_valid(m) == forall|g: int| 0 <= g < 14 ==> (#[trigger] qs[g]).spec_is_valid(m),
{
    assert forall|g: int| 0 <= g < 14 implies (#[trigger] qs[g]).spec_is_valid(m) == (if g == 0 {
        passes(spec_manga_title(p, m))
    } else if g == 1 {
        passes(spec_manga_author_or_artist(p, m))
    } else if g == 2 {
        passes(spec_manga_authors(p, m))
    } else if g == 3 {
        passes(spec_manga_artists(p, m))
    } else if g == 4 {
        passes(spec_manga_year(p, m))
    } else if g == 5 {
        passes(spec_manga_included_tags(p, m))
    } else if g == 6 {
        passes(spec_manga_excluded_tags(p, m))
    } else if g == 7 {
        passes(spec_manga_status(p, m))
    } else if g == 8 {
        passes(spec_manga_original_language(p, m))
    } else if g == 9 {
        passes(spec_manga_excluded_original_language(p, m))
    } else if g == 10 {
        passes(spec_manga_demographic(p, m))
    } else if g == 11 {
        passes(spec_manga_content_rating(p, m))
    } else if g == 12 {
        passes(spec_manga_created_at_since(p, m))
    } else {
        passes(spec_manga_updated_at_since(p, m))
    }) by {
        lemma_single_criterion(p, qs[g], g, m);
    }
    assert(p.spec_is_valid(m) == (qs[0].spec_is_valid(m) && qs[1].spec_is_valid(m)
        && qs[2].spec_is_valid(m) && qs[3].spec_is_valid(m) && qs[4].spec_is_valid(m)
        && qs[5].spec_is_valid(m) && qs[6].spec_is_valid(m) && qs[7].spec_is_valid(m)
        && qs[8].spec_is_valid(m) && qs[9].spec_is_valid(m) && qs[10].spec_is_valid(m)
        && qs[11].spec_is_valid(m) && qs[12].spec_is_valid(m) && qs[13].spec_is_valid(m)));
}

/// Adding a cover that was just added changes nothing.
pub proof fn law_add_cover_idempotent(
    first: Map<u128, PMangaObject>,
    once: Map<u128, PMangaObject>,
    twice: Map<u128, PMangaObject>,
    k: u128,
    c: u128,
)
    requires
        manga_set(
            first,
            once,
            k,
            with_cover(covers_or_empty(first, k), c),
            chapters_or_empty(first, k),
        ),
        manga_set(
            once,
            twice,
            k,
            with_cover(covers_or_empty(once, k), c),
            chapters_or_empty(once, k),
        ),
    ensures
        same_contents(once, twice),
{
    assert(once.contains_key(k));
    let x = covers_or_empty(first, k);
    if !x.contains(c) {
        assert(x.push(c)[x.len() as int] == c);
    }
    assert(once[k].covers@.contains(c));
    assert(with_cover(once[k].covers@, c) == once[k].covers@);
    assert(twice.dom() =~= once.dom());
}

/// Adding a cover never lists a cover twice in a manga that listed none
/// twice.
pub proof fn law_add_cover_no_duplicates(
    old: Map<u128, PMangaObject>,
    new: Map<u128, PMangaObject>,
    k: u128,
    c: u128,
)
    requires
        manga_set(old, new, k, with_cover(covers_or_empty(old, k), c), chapters_or_empty(old, k)),
        covers_or_empty(old, k).no_duplicates(),
    ensures
        new[k].covers@.no_duplicates(),
{
}

/// Adding a cover keeps every manga with at least one cover.
pub proof fn law_add_cover_keeps_a_cover(
    old: Map<u128, PMangaObject>,
    new: Map<u128, PMangaObject>,
    k: u128,
    c: u128,
)
    requires
        every_manga_has_a_cover(old),
        manga_set(old, new, k, with_cover(covers_or_empty(old, k), c), chapters_or_empty(old, k)),
    ensures
        every_manga_has_a_cover(new),
{
    assert forall|q: u128| #[trigger] new.contains_key(q) implies new[q].covers@.len() >= 1 by {
        if q == k {
            if !with_cover(covers_or_empty(old, k), c).contains(c) {
                assert(with_cover(covers_or_empty(old, k), c).last() == c);
            }
        } else {
            assert(old.contains_key(q));
        }
    }
}

/// Adding a manga with a cover keeps every manga with at least one cover.
pub proof fn law_add_manga_keeps_a_cover(
    old: Map<u128, PMangaObject>,
    new: Map<u128, PMangaObject>,
    k: u128,
    c: u128,
)
    requires
        every_manga_has_a_cover(old),
        manga_set(old, new, k, covers_or_empty(old, k).push(c), chapters_or_empty(old, k)),
    ensures
        every_manga_has_a_cover(new),
{
    assert forall|q: u128| #[trigger] new.contains_key(q) implies new[q].covers@.len() >= 1 by {
        if q != k {
            assert(old.contains_key(q));
        }
    }
}

/// Adding a chapter keeps every manga with at least one cover.
pub proof fn law_add_chapter_keeps_a_cover(
    old: Map<u128, PMangaObject>,
    new: Map<u128, PMangaObject>,
    k: u128,
    cover: u128,
    c: u128,
    images: ChapterImagesData,
    mode: Mode,
)
    requires
        every_manga_has_a_cover(old),
        chapter_added(old, new, k, cover, c, images, mode),
    ensures
        every_manga_has_a_cover(new),
{
    assert forall|q: u128| #[trigger] new.contains_key(q) implies new[q].covers@.len() >= 1 by {
        if q != k || old.contains_key(k) {
            assert(old.contains_key(q));
        }
    }
}

/// Every manga of a package assembled from what is stored has a cover.
pub proof fn law_assembled_has_covers(
    covers: Seq<CoverEntry>,
    chapters: Seq<(ChapterEntry, ChapterImagesData)>,
    mangas: Seq<MangaEntry>,
    data: Map<u128, PMangaObject>,
)
    requires
        forall|m: u128| #[trigger] data.contains_key(m) <==> assembled_has(covers, chapters, mangas, m),
        forall|m: u128| #[trigger] data.contains_key(m) ==> data[m].covers@ == covers_of(covers, m),
    ensures
        every_manga_has_a_cover(data),
{
}

/// Merging a package into an empty one gives its mangas, with runs of
/// repeated covers reduced to one.
pub proof fn law_merge_into_empty(
    lhs: Map<u128, PMangaObject>,
    rhs: Map<u128, PMangaObject>,
    r: Map<u128, PMangaObject>,
)
    requires
        merged(lhs, rhs, r),
        lhs.dom().len() == 0,
        lhs.dom().finite(),
    ensures
        r.dom() == rhs.dom(),
        forall|k: u128| #[trigger] r.contains_key(k) ==> r[k].covers@ == dedup(rhs[k].covers@) && r[k].chapters@ == rhs[k].chapters@,
{
    assert forall|k: u128| !lhs.contains_key(k) by {
        if lhs.contains_key(k) {
            vstd::set_lib::lemma_set_empty_equivalency_len(lhs.dom());
        }
    }
    assert(r.dom() =~= rhs.dom());
    assert forall|k: u128| #[trigger] r.contains_key(k) implies r[k].covers@ == dedup(rhs[k].covers@) && r[k].chapters@ == rhs[k].chapters@ by {
        assert(rhs.contains_key(k));
        assert(covers_or_empty(lhs, k) + rhs[k].covers@ =~= rhs[k].covers@);
        assert(chapters_or_empty(lhs, k).union_prefer_right(rhs[k].chapters@) =~= rhs[k].chapters@);
    }
}

/// Merging an empty package into another changes nothing.
pub proof fn law_merge_empty_right(
    lhs: Map<u128, PMangaObject>,
    rhs: Map<u128, PMangaObject>,
    r: Map<u128, PMangaObject>,
)
    requires
        merged(lhs, rhs, r),
        rhs.dom().len() == 0,
        rhs.dom().finite(),
    ensures
        same_contents(lhs, r),
{
    assert forall|k: u128| !rhs.contains_key(k) by {
        if rhs.contains_key(k) {
            vstd::set_lib::lemma_set_empty_equivalency_len(rhs.dom());
        }
    }
    assert(r.dom() =~= lhs.dom());
}

/// The last id survives the removal of repeated neighbours.
proof fn lemma_dedup_last(s: Seq<u128>)
    requires
        s.len() > 0,
    ensures
        dedup(s).len() > 0,
        dedup(s).last() == s.last(),
    decreases s.len(),
{
    if s.len() > 1 {
        lemma_dedup_last(s.drop_last());
    }
}

/// Removing repeated neighbours keeps exactly the ids that occur, and leaves
/// no two equal neighbours.
proof fn lemma_dedup_members(s: Seq<u128>)
    ensures
        forall|x: u128| dedup(s).contains(x) <==> s.contains(x),
        forall|i: int| 0 <= i < dedup(s).len() - 1 ==> #[trigger] dedup(s)[i] != dedup(s)[i + 1],
    decreases s.len(),
{
    if s.len() > 1 {
        let t = s.drop_last();
        lemma_dedup_members(t);
        lemma_dedup_last(t);
        let d = dedup(t);
        assert forall|x: u128| dedup(s).contains(x) <==> s.contains(x) by {
            if s.contains(x) {
                let i = choose|i: int| 0 <= i < s.len() && s[i] == x;
                if i < s.len() - 1 || s.last() == s[s.len() - 2] {
                    if i < s.len() - 1 {
                        assert(t[i] == x);
                    } else {
                        assert(t[s.len() - 2] == x);
                    }
                    assert(t.contains(x));
                    assert(d.contains(x));
                    let j = choose|j: int| 0 <= j < d.len() && d[j] == x;
                    assert(dedup(s)[j] == x);
                } else {
                    assert(dedup(s)[d.len() as int] == x);
                }
            }
            if dedup(s).contains(x) {
                let i = choose|i: int| 0 <= i < dedup(s).len() && dedup(s)[i] == x;
                if s.last() != s[s.len() - 2] && i == d.len() {
                    assert(s[s.len() - 1] == x);
                } else {
                    assert(i < d.len());
                    assert(dedup(s)[i] == d[i]);
                    assert(d.contains(x));
                    assert(t.contains(x));
                    let j = choose|j: int| 0 <= j < t.len() && t[j] == x;
                    assert(s[j] == x);
                }
            }
        }
    }
}

/// Removing repeated neighbours from a list without any changes nothing.
proof fn lemma_dedup_plain(s: Seq<u128>)
    requires
        forall|i: int| 0 <= i < s.len() - 1 ==> #[trigger] s[i] != s[i + 1],
    ensures
        dedup(s) == s,
    decreases s.len(),
{
    if s.len() > 1 {
        let t = s.drop_last();
        assert forall|i: int| 0 <= i < t.len() - 1 implies #[trigger] t[i] != t[i + 1] by {
            assert(s[i] != s[i + 1]);
        }
        lemma_dedup_plain(t);
        assert(s[s.len() - 2] != s[s.len() - 1]);
        assert(t.push(s.last()) =~= s);
    }
}

/// What a merge of two packages holds: every manga of either side; every
/// chapter of either side, the right side's version where both hold it and
/// the left side's otherwise; no other chapter; the covers of both sides,
/// where the right side holds the manga with no two equal neighbours and,
/// when the joined list had none, exactly the left covers followed by the
/// right ones.
pub proof fn law_merge_result(
    lhs: Map<u128, PMangaObject>,
    rhs: Map<u128, PMangaObject>,
    r: Map<u128, PMangaObject>,
)
    requires
        merged(lhs, rhs, r),
    ensures
        forall|k: u128| #[trigger] r.contains_key(k) <==> lhs.contains_key(k) || rhs.contains_key(k),
        forall|k: u128| #[trigger] r.contains_key(k) && !rhs.contains_key(k) ==> r[k] == lhs[k],
        forall|k: u128, c: u128|
            #![trigger r[k].chapters@.contains_key(c)]
            lhs.contains_key(k) && lhs[k].chapters@.contains_key(c) ==> r.contains_key(k)
                && r[k].chapters@.contains_key(c),
        forall|k: u128, c: u128|
            #![trigger r[k].chapters@[c]]
            rhs.contains_key(k) && rhs[k].chapters@.contains_key(c) ==> r[k].chapters@.contains_key(
                c,
            ) && r[k].chapters@[c] == rhs[k].chapters@[c],
        forall|k: u128, c: u128|
            #![trigger r[k].chapters@[c]]
            lhs.contains_key(k) && lhs[k].chapters@.contains_key(c) && !(rhs.contains_key(k)
                && rhs[k].chapters@.contains_key(c)) ==> r[k].chapters@[c] == lhs[k].chapters@[c],
        forall|k: u128, c: u128|
            #![trigger r[k].chapters@.contains_key(c)]
            r.contains_key(k) && r[k].chapters@.contains_key(c) ==> (lhs.contains_key(k)
                && lhs[k].chapters@.contains_key(c)) || (rhs.contains_key(k)
                && rhs[k].chapters@.contains_key(c)),
        forall|k: u128, x: u128|
            #![trigger r[k].covers@.contains(x)]
            r.contains_key(k) ==> (r[k].covers@.contains(x) <==> (lhs.contains_key(k)
                && lhs[k].covers@.contains(x)) || (rhs.contains_key(k)
                && rhs[k].covers@.contains(x))),
        forall|k: u128, i: int|
            #![trigger r[k].covers@[i]]
            rhs.contains_key(k) && 0 <= i < r[k].covers@.len() - 1 ==> r[k].covers@[i]
                != r[k].covers@[i + 1],
        forall|k: u128|
            #[trigger] rhs.contains_key(k) && (forall|i: int|
                0 <= i < (covers_or_empty(lhs, k) + rhs[k].covers@).len() - 1
                    ==> #[trigger] (covers_or_empty(lhs, k) + rhs[k].covers@)[i] != (covers_or_empty(
                    lhs,
                    k,
                ) + rhs[k].covers@)[i + 1]) ==> r[k].covers@ == covers_or_empty(lhs, k)
                + rhs[k].covers@,
{
    assert forall|k: u128| #[trigger] r.contains_key(k) <==> lhs.contains_key(k) || rhs.contains_key(k) by {
        assert(r.dom().contains(k) == lhs.dom().union(rhs.dom()).contains(k));
    }
    assert forall|k: u128, c: u128|
        lhs.contains_key(k) && lhs[k].chapters@.contains_key(c) implies r.contains_key(k)
            && #[trigger] r[k].chapters@.contains_key(c) && (!(rhs.contains_key(k)
            && rhs[k].chapters@.contains_key(c)) ==> r[k].chapters@[c] == lhs[k].chapters@[c]) by {
        assert(r.contains_key(k));
        if rhs.contains_key(k) {
            assert(chapters_or_empty(lhs, k) == lhs[k].chapters@);
        }
    }
    assert forall|k: u128, c: u128|
        #![trigger r[k].chapters@[c]]
        lhs.contains_key(k) && lhs[k].chapters@.contains_key(c) && !(rhs.contains_key(k)
            && rhs[k].chapters@.contains_key(c)) implies r[k].chapters@[c] == lhs[k].chapters@[c] by {
        assert(r.contains_key(k));
        if rhs.contains_key(k) {
            assert(chapters_or_empty(lhs, k) == lhs[k].chapters@);
        }
    }
    assert forall|k: u128, x: u128|
        #![trigger r[k].covers@.contains(x)]
        r.contains_key(k) implies (r[k].covers@.contains(x) <==> (lhs.contains_key(k)
            && lhs[k].covers@.contains(x)) || (rhs.contains_key(k) && rhs[k].covers@.contains(x))) by {
        if rhs.contains_key(k) {
            let a = covers_or_empty(lhs, k);
            let b = rhs[k].covers@;
            lemma_dedup_members(a + b);
            if (a + b).contains(x) {
                let i = choose|i: int| 0 <= i < (a + b).len() && (a + b)[i] == x;
                if i < a.len() {
                    assert(a[i] == x);
                    assert(lhs.contains_key(k) && lhs[k].covers@.contains(x));
                } else {
                    assert(b[i - a.len()] == x);
                }
            }
            if lhs.contains_key(k) && lhs[k].covers@.contains(x) {
                let i = choose|i: int| 0 <= i < a.len() && a[i] == x;
                assert((a + b)[i] == x);
            }
            if b.contains(x) {
                let i = choose|i: int| 0 <= i < b.len() && b[i] == x;
                assert((a + b)[a.len() + i] == x);
            }
        }
    }
    assert forall|k: u128, i: int|
        #![trigger r[k].covers@[i]]
        rhs.contains_key(k) && 0 <= i < r[k].covers@.len() - 1 implies r[k].covers@[i]
            != r[k].covers@[i + 1] by {
        lemma_dedup_members(covers_or_empty(lhs, k) + rhs[k].covers@);
    }
    assert forall|k: u128|
        #[trigger] rhs.contains_key(k) && (forall|i: int|
            0 <= i < (covers_or_empty(lhs, k) + rhs[k].covers@).len() - 1
                ==> #[trigger] (covers_or_empty(lhs, k) + rhs[k].covers@)[i] != (covers_or_empty(
                lhs,
                k,
            ) + rhs[k].covers@)[i + 1]) implies r[k].covers@ == covers_or_empty(lhs, k)
            + rhs[k].covers@ by {
        lemma_dedup_plain(covers_or_empty(lhs, k) + rhs[k].covers@);
    }
}

/// Clearing the images of a chapter in one quality empties exactly that
/// list: in `Data` mode the chapter's data images are gone and its
/// data-saver images are as they were, in `DataSaver` mode the other way
/// round; the chapter stays, and every other chapter, cover and manga is
/// unchanged.
pub proof fn law_clear_chapter_images_result(
    old: Map<u128, PMangaObject>,
    new: Map<u128, PMangaObject>,
    k: u128,
    id: u128,
    mode: Mode,
)
    requires
        chapter_images_cleared(old, new, k, id, mode),
    ensures
        new.contains_key(k) && new[k].chapters@.contains_key(id),
        mode == Mode::Data ==> new[k].chapters@[id].data@ == Seq::<String>::empty()
            && new[k].chapters@[id].data_saver@ == old[k].chapters@[id].data_saver@,
        mode == Mode::DataSaver ==> new[k].chapters@[id].data_saver@ == Seq::<String>::empty()
            && new[k].chapters@[id].data@ == old[k].chapters@[id].data@,
        new.dom() == old.dom(),
        forall|q: u128| #[trigger] new.contains_key(q) && q != k ==> new[q] == old[q],
        new[k].covers@ == old[k].covers@,
        forall|c: u128|
            #[trigger] new[k].chapters@.contains_key(c) <==> old[k].chapters@.contains_key(c),
        forall|c: u128|
            #[trigger] old[k].chapters@.contains_key(c) && c != id ==> new[k].chapters@[c]
                == old[k].chapters@[c],
{
    assert(new.contains_key(k));
    assert(new[k].chapters@.dom().contains(id));
    if mode == Mode::Data {
        assert(new[k].chapters@[id].data@ =~= Seq::<String>::empty());
    } else {
        assert(new[k].chapters@[id].data_saver@ =~= Seq::<String>::empty());
    }
}

/// Whether `s` holds a relationship of kind `t`.
pub open spec fn present<P>(s: Seq<Relationship<P>>, t: RelationshipType) -> bool {
    exists|i: int| 0 <= i < s.len() && #[trigger] s[i].type_ == t
}

proof fn lemma_first_present<P>(s: Seq<Relationship<P>>, t: RelationshipType)
    ensures
        has_kind(s, t) == present(s, t),
    decreases s.len(),
{
    if s.len() > 0 {
        lemma_first_present(s.drop_first(), t);
        if present(s, t) && s[0].type_ != t {
            let i = choose|i: int| 0 <= i < s.len() && #[trigger] s[i].type_ == t;
            assert(s.drop_first()[i - 1].type_ == t);
        }
        if present(s.drop_first(), t) {
            let i = choose|i: int| 0 <= i < s.drop_first().len() && #[trigger] s.drop_first()[i].type_ == t;
            assert(s[i + 1].type_ == t);
        }
    }
}

proof fn lemma_present_without<P>(s: Seq<Relationship<P>>, t: RelationshipType, k: RelationshipType)
    ensures
        present(without_kind(s, t), k) == (k != t && present(s, k)),
    decreases s.len(),
{
    if s.len() > 0 {
        let d = s.drop_last();
        lemma_present_without(d, t, k);
        let w = without_kind(d, t);
        let ws = without_kind(s, t);
        if s.last().type_ != t {
            assert(ws == w.push(s.last()));
        } else {
            assert(ws == w);
        }
        if present(d, k) {
            let j = choose|j: int| 0 <= j < d.len() && #[trigger] d[j].type_ == k;
            assert(s[j].type_ == k);
        }
        if present(s, k) && k != t {
            let i = choose|i: int| 0 <= i < s.len() && #[trigger] s[i].type_ == k;
            if i < d.len() {
                assert(d[i].type_ == k);
                assert(present(d, k));
                assert(present(w, k));
                let j = choose|j: int| 0 <= j < w.len() && #[trigger] w[j].type_ == k;
                assert(ws[j].type_ == k);
            } else {
                assert(ws[w.len() as int].type_ == k);
            }
        }
        if present(ws, k) {
            let i = choose|i: int| 0 <= i < ws.len() && #[trigger] ws[i].type_ == k;
            if i < w.len() {
                assert(w[i].type_ == k);
                assert(present(w, k));
                assert(present(s, k));
            } else {
                assert(s[s.len() - 1].type_ == k);
                assert(present(s, k));
            }
        }
    } else {
        assert(without_kind(s, t).len() == 0);
    }
}

proof fn lemma_present_expanded<P>(s: Seq<Relationship<P>>, t: RelationshipType, k: RelationshipType)
    ensures
        present(expanded_of_kind(s, t), k) == (k == t && expanded_of_kind(s, t).len() > 0),
    decreases s.len(),
{
    if s.len() > 0 {
        lemma_present_expanded(s.drop_last(), t, k);
        let e = expanded_of_kind(s.drop_last(), t);
        if s.last().type_ == t && s.last().attributes is Some {
            assert(expanded_of_kind(s, t) == e.push(s.last()));
            if k == t {
                assert(expanded_of_kind(s, t)[e.len() as int].type_ == k);
            }
            if present(expanded_of_kind(s, t), k) {
                let i = choose|i: int| 0 <= i < expanded_of_kind(s, t).len() && #[trigger] expanded_of_kind(s, t)[i].type_ == k;
                if i < e.len() {
                    assert(e[i].type_ == k);
                }
            }
        }
    }
}

proof fn lemma_present_concat<P>(a: Seq<Relationship<P>>, b: Seq<Relationship<P>>, k: RelationshipType)
    ensures
        present(a + b, k) == (present(a, k) || present(b, k)),
{
    if present(a + b, k) {
        let i = choose|i: int| 0 <= i < (a + b).len() && #[trigger] (a + b)[i].type_ == k;
        if i < a.len() {
            assert(a[i].type_ == k);
        } else {
            assert(b[i - a.len()].type_ == k);
        }
    }
    if present(a, k) {
        let i = choose|i: int| 0 <= i < a.len() && #[trigger] a[i].type_ == k;
        assert((a + b)[i].type_ == k);
    }
    if present(b, k) {
        let i = choose|i: int| 0 <= i < b.len() && #[trigger] b[i].type_ == k;
        assert((a + b)[i + a.len()].type_ == k);
    }
}

proof fn lemma_without_absent<P>(s: Seq<Relationship<P>>, t: RelationshipType)
    requires
        !present(s, t),
    ensures
        without_kind(s, t) == s,
    decreases s.len(),
{
    if s.len() > 0 {
        let d = s.drop_last();
        if present(d, t) {
            let j = choose|j: int| 0 <= j < d.len() && #[trigger] d[j].type_ == t;
            assert(s[j].type_ == t);
        }
        lemma_without_absent(d, t);
        assert(s[s.len() - 1].type_ != t);
        assert(d.push(s.last()) =~= s);
    } else {
        assert(without_kind(s, t) =~= s);
    }
}

/// Whether the requirements ask for kind `k`.
pub open spec fn asks_for(reqs: Seq<MangaRequiredRelationship>, k: RelationshipType) -> bool {
    exists|j: int| 0 <= j < reqs.len() && required_kind(#[trigger] reqs[j]) == k
}

proof fn lemma_present_seeded<P>(
    x: Seq<Relationship<P>>,
    s: Seq<Relationship<P>>,
    reqs: Seq<MangaRequiredRelationship>,
    k: RelationshipType,
)
    ensures
        present(seeded_all(x, s, reqs), k) == if asks_for(reqs, k) {
            expanded_of_kind(s, k).len() > 0
        } else {
            present(x, k)
        },
    decreases reqs.len(),
{
    if reqs.len() > 0 {
        let d = reqs.drop_last();
        let t = required_kind(reqs.last());
        lemma_present_seeded(x, s, d, k);
        let z = seeded_all(x, s, d);
        lemma_present_concat(without_kind(z, t), expanded_of_kind(s, t), k);
        lemma_present_without(z, t, k);
        lemma_present_expanded(s, t, k);
        if asks_for(d, k) {
            let j = choose|j: int| 0 <= j < d.len() && required_kind(#[trigger] d[j]) == k;
            assert(reqs[j] == d[j]);
        }
        if asks_for(reqs, k) && k != t {
            let j = choose|j: int| 0 <= j < reqs.len() && required_kind(#[trigger] reqs[j]) == k;
            assert(d[j] == reqs[j]);
        }
        if k == t {
            assert(required_kind(reqs[reqs.len() - 1]) == k);
        }
    }
}

proof fn lemma_seeded_unchanged<P>(
    z: Seq<Relationship<P>>,
    s: Seq<Relationship<P>>,
    reqs: Seq<MangaRequiredRelationship>,
)
    requires
        forall|j: int|
            0 <= j < reqs.len() ==> !present(z, required_kind(#[trigger] reqs[j]))
                && expanded_of_kind(s, required_kind(reqs[j])).len() == 0,
    ensures
        seeded_all(z, s, reqs) == z,
    decreases reqs.len(),
{
    if reqs.len() > 0 {
        let d = reqs.drop_last();
        assert forall|j: int| 0 <= j < d.len() implies !present(z, required_kind(#[trigger] d[j]))
            && expanded_of_kind(s, required_kind(d[j])).len() == 0 by {
            assert(d[j] == reqs[j]);
        }
        lemma_seeded_unchanged(z, s, d);
        let t = required_kind(reqs.last());
        assert(!present(z, required_kind(reqs[reqs.len() - 1])));
        lemma_without_absent(z, t);
        assert(expanded_of_kind(s, t) =~= Seq::<Relationship<P>>::empty());
        assert(z + Seq::<Relationship<P>>::empty() =~= z);
    }
}

proof fn lemma_required_asks<P>(x: Seq<Relationship<P>>, k: RelationshipType)
    requires
        k == RelationshipType::Artist || k == RelationshipType::Author || k == RelationshipType::CoverArt,
    ensures
        asks_for(spec_required(x), k) == !has_kind(x, k),
        forall|j: int| 0 <= j < spec_required(x).len() ==> !has_kind(x, required_kind(#[trigger] spec_required(x)[j])),
{
    let r = spec_required(x);
    if !has_kind(x, k) {
        if k == RelationshipType::Artist {
            assert(r[0] == MangaRequiredRelationship::Artist);
        } else if k == RelationshipType::Author {
            let i = if has_kind(x, RelationshipType::Artist) { 0int } else { 1int };
            assert(r[i] == MangaRequiredRelationship::Author);
        } else {
            let i = (if has_kind(x, RelationshipType::Artist) { 0int } else { 1int }) + (if has_kind(x, RelationshipType::Author) { 0int } else { 1int });
            assert(r[i] == MangaRequiredRelationship::CoverArt);
        }
    }
}

/// Seeding a manga a second time from the same stored copy changes
/// nothing.
pub proof fn law_seed_idempotent<P>(x: Seq<Relationship<P>>, s: Seq<Relationship<P>>)
    ensures
        spec_seed(spec_seed(x, s), s) == spec_seed(x, s),
{
    let y = spec_seed(x, s);
    let ry = spec_required(y);
    assert forall|j: int| 0 <= j < ry.len() implies !present(y, required_kind(#[trigger] ry[j]))
        && expanded_of_kind(s, required_kind(ry[j])).len() == 0 by {
        let k = required_kind(ry[j]);
        lemma_required_asks(y, RelationshipType::Artist);
        assert(!has_kind(y, k));
        lemma_first_present(y, k);
        lemma_present_seeded(x, s, spec_required(x), k);
        lemma_required_asks(x, k);
        lemma_first_present(x, k);
    }
    lemma_seeded_unchanged(y, s, ry);
}

/// Seeding from a stored copy that has an expanded artist, author and cover
/// leaves nothing required.
pub proof fn law_seed_completes<P>(x: Seq<Relationship<P>>, s: Seq<Relationship<P>>)
    requires
        expanded_of_kind(s, RelationshipType::Artist).len() > 0,
        expanded_of_kind(s, RelationshipType::Author).len() > 0,
        expanded_of_kind(s, RelationshipType::CoverArt).len() > 0,
    ensures
        spec_required(spec_seed(x, s)).len() == 0,
{
    let y = spec_seed(x, s);
    assert forall|k: RelationshipType|
        k == RelationshipType::Artist || k == RelationshipType::Author || k == RelationshipType::CoverArt
        implies #[trigger] has_kind(y, k) by {
        lemma_first_present(y, k);
        lemma_present_seeded(x, s, spec_required(x), k);
        lemma_required_asks(x, k);
        lemma_first_present(x, k);
    }
    assert(has_kind(y, RelationshipType::Artist));
    assert(has_kind(y, RelationshipType::Author));
    assert(has_kind(y, RelationshipType::CoverArt));
}

/// The rank of a requirement in the order in which they are reported.
pub open spec fn requirement_rank(r: MangaRequiredRelationship) -> int {
    match r {
        MangaRequiredRelationship::Artist => 0,
        MangaRequiredRelationship::Author => 1,
        MangaRequiredRelationship::CoverArt => 2,
    }
}

/// The requirements of a manga name each of the artist, author and cover
/// kinds exactly when no relationship of that kind is at any position, and
/// come artist first, then author, then cover, each once.
pub proof fn law_required_result<P>(x: Seq<Relationship<P>>)
    ensures
        spec_required(x).contains(MangaRequiredRelationship::Artist) <==> !present(
            x,
            RelationshipType::Artist,
        ),
        spec_required(x).contains(MangaRequiredRelationship::Author) <==> !present(
            x,
            RelationshipType::Author,
        ),
        spec_required(x).contains(MangaRequiredRelationship::CoverArt) <==> !present(
            x,
            RelationshipType::CoverArt,
        ),
        forall|i: int, j: int|
            0 <= i < j < spec_required(x).len() ==> requirement_rank(#[trigger] spec_required(x)[i])
                < requirement_rank(#[trigger] spec_required(x)[j]),
{
    let r = spec_required(x);
    lemma_first_present(x, RelationshipType::Artist);
    lemma_first_present(x, RelationshipType::Author);
    lemma_first_present(x, RelationshipType::CoverArt);
    lemma_required_asks(x, RelationshipType::Artist);
    lemma_required_asks(x, RelationshipType::Author);
    lemma_required_asks(x, RelationshipType::CoverArt);
    assert forall|q: MangaRequiredRelationship| r.contains(q) <==> asks_for(r, required_kind(q)) by {
        if r.contains(q) {
            let i = choose|i: int| 0 <= i < r.len() && r[i] == q;
            assert(required_kind(r[i]) == required_kind(q));
        }
        if asks_for(r, required_kind(q)) {
            let i = choose|i: int| 0 <= i < r.len() && required_kind(#[trigger] r[i]) == required_kind(q);
            assert(r[i] == q);
        }
    }
}

/// Seeding kind `t` keeps the relationships of the manga of other kinds, in
/// order, and then adds the expanded relationships of kind `t` of the
/// stored copy, in order.
pub proof fn law_seeded_with_result<P>(
    input: Seq<Relationship<P>>,
    seed: Seq<Relationship<P>>,
    t: RelationshipType,
)
    ensures
        forall|x: Relationship<P>|
            #![trigger seeded_with(input, seed, t).contains(x)]
            #![trigger input.contains(x)]
            #![trigger seed.contains(x)]
            seeded_with(input, seed, t).contains(x) <==> (input.contains(x) && x.type_ != t) || (
            seed.contains(x) && x.type_ == t && x.attributes is Some),
        forall|i: int|
            0 <= i < seeded_with(input, seed, t).len() ==> ((#[trigger] seeded_with(
                input,
                seed,
                t,
            )[i]).type_ == t <==> i >= without_kind(input, t).len()),
{
    lemma_without_members(input, t);
    lemma_expanded_members(seed, t);
    let a = without_kind(input, t);
    let b = expanded_of_kind(seed, t);
    assert(seeded_with(input, seed, t) == a + b);
    assert forall|x: Relationship<P>|
        #![trigger (a + b).contains(x)]
        #![trigger a.contains(x)]
        #![trigger b.contains(x)]
        (a + b).contains(x) <==> a.contains(x) || b.contains(x) by {
        if (a + b).contains(x) {
            let i = choose|i: int| 0 <= i < (a + b).len() && (a + b)[i] == x;
            if i < a.len() {
                assert(a[i] == x);
            } else {
                assert(b[i - a.len()] == x);
            }
        }
        if a.contains(x) {
            let i = choose|i: int| 0 <= i < a.len() && a[i] == x;
            assert((a + b)[i] == x);
        }
        if b.contains(x) {
            let i = choose|i: int| 0 <= i < b.len() && b[i] == x;
            assert((a + b)[a.len() + i] == x);
        }
    }
    assert forall|i: int| 0 <= i < (a + b).len() implies ((#[trigger] (a + b)[i]).type_ == t <==> i
        >= a.len()) by {
        if i < a.len() {
            assert(a.contains(a[i]));
        } else {
            assert(b.contains(b[i - a.len()]));
        }
    }
}

proof fn lemma_without_members<P>(s: Seq<Relationship<P>>, t: RelationshipType)
    ensures
        forall|x: Relationship<P>|
            #![trigger without_kind(s, t).contains(x)]
            #![trigger s.contains(x)]
            without_kind(s, t).contains(x) <==> s.contains(x) && x.type_ != t,
    decreases s.len(),
{
    if s.len() > 0 {
        let u = s.drop_last();
        lemma_without_members(u, t);
        let w = without_kind(u, t);
        assert forall|x: Relationship<P>|
            #![trigger without_kind(s, t).contains(x)]
            #![trigger s.contains(x)]
            without_kind(s, t).contains(x) <==> s.contains(x) && x.type_ != t by {
            if without_kind(s, t).contains(x) {
                let i = choose|i: int| 0 <= i < without_kind(s, t).len() && without_kind(s, t)[i] == x;
                if i < w.len() {
                    assert(without_kind(s, t)[i] == w[i]);
                    assert(w.contains(x));
                    let j = choose|j: int| 0 <= j < u.len() && u[j] == x;
                    assert(s[j] == x);
                } else {
                    assert(s[s.len() - 1] == x);
                }
            }
            if s.contains(x) && x.type_ != t {
                let i = choose|i: int| 0 <= i < s.len() && s[i] == x;
                if i < u.len() {
                    assert(u[i] == x);
                    assert(w.contains(x));
                    let j = choose|j: int| 0 <= j < w.len() && w[j] == x;
                    assert(without_kind(s, t)[j] == x);
                } else {
                    assert(without_kind(s, t)[w.len() as int] == x);
                }
            }
        }
    }
}

proof fn lemma_expanded_members<P>(s: Seq<Relationship<P>>, t: RelationshipType)
    ensures
        forall|x: Relationship<P>|
            #![trigger expanded_of_kind(s, t).contains(x)]
            #![trigger s.contains(x)]
            expanded_of_kind(s, t).contains(x) <==> s.contains(x) && x.type_ == t
                && x.attributes is Some,
    decreases s.len(),
{
    if s.len() > 0 {
        let u = s.drop_last();
        lemma_expanded_members(u, t);
        let w = expanded_of_kind(u, t);
        assert forall|x: Relationship<P>|
            #![trigger expanded_of_kind(s, t).contains(x)]
            #![trigger s.contains(x)]
            expanded_of_kind(s, t).contains(x) <==> s.contains(x) && x.type_ == t
                && x.attributes is Some by {
            if expanded_of_kind(s, t).contains(x) {
                let i = choose|i: int|
                    0 <= i < expanded_of_kind(s, t).len() && expanded_of_kind(s, t)[i] == x;
                if i < w.len() {
                    assert(expanded_of_kind(s, t)[i] == w[i]);
                    assert(w.contains(x));
                    let j = choose|j: int| 0 <= j < u.len() && u[j] == x;
                    assert(s[j] == x);
                } else {
                    assert(s[s.len() - 1] == x);
                }
            }
            if s.contains(x) && x.type_ == t && x.attributes is Some {
                let i = choose|i: int| 0 <= i < s.len() && s[i] == x;
                if i < u.len() {
                    assert(u[i] == x);
                    assert(w.contains(x));
                    let j = choose|j: int| 0 <= j < w.len() && w[j] == x;
                    assert(expanded_of_kind(s, t)[j] == x);
                } else {
                    assert(expanded_of_kind(s, t)[w.len() as int] == x);
                }
            }
        }
    }
}

/// Position `v` occurs in `p`.
pub open spec fn occurs(p: Seq<usize>, v: int) -> bool {
    exists|a: int| 0 <= a < p.len() && #[trigger] p[a] as int == v
}

proof fn lemma_positions_cover(p: Seq<usize>, n: nat)
    requires
        p.len() == n,
        positions_below(p, n as int),
        distinct_positions(p),
    ensures
        forall|v: int| 0 <= v < n ==> #[trigger] occurs(p, v),
{
    broadcast use vstd::seq_lib::seq_to_set_is_finite;

    let q = p.map_values(|x: usize| x as int);
    assert forall|i: int, j: int| 0 <= i < q.len() && 0 <= j < q.len() && i != j implies q[i] != q[j] by {
        if i < j {
            assert(p[i] != p[j]);
        } else {
            assert(p[j] != p[i]);
        }
    }
    assert(q.no_duplicates());
    q.unique_seq_to_set();
    vstd::set_lib::lemma_int_range(0, n as int);
    assert forall|v: int| q.to_set().contains(v) implies vstd::set_lib::set_int_range(0, n as int).contains(v) by {
        let a = choose|a: int| 0 <= a < q.len() && q[a] == v;
        assert(p[a] < n);
    }
    vstd::set_lib::lemma_subset_equality(q.to_set(), vstd::set_lib::set_int_range(0, n as int));
    assert forall|v: int| 0 <= v < n implies #[trigger] occurs(p, v) by {
        assert(vstd::set_lib::set_int_range(0, n as int).contains(v));
        assert(q.to_set().contains(v));
        let a = choose|a: int| 0 <= a < q.len() && q[a] == v;
        assert(p[a] as int == v);
    }
}

/// Position `x` is strictly ahead of position `y` under the keys: its key
/// comes first, or the keys tie and `x` was first.
pub open spec fn ahead(keys: Seq<KeyValue>, x: int, y: int, descending: bool) -> bool {
    comes_before(keys[x], keys[y], descending) && (!comes_before(keys[y], keys[x], descending)
        || x < y)
}

proof fn lemma_order_is_ahead(p: Seq<usize>, keys: Seq<KeyValue>, descending: bool, a: int, b: int)
    requires
        is_stable_order(p, keys, descending),
        0 <= a < b < p.len(),
    ensures
        ahead(keys, p[a] as int, p[b] as int, descending),
{
    assert(comes_before(keys[p[a] as int], keys[p[b] as int], descending));
    if comes_before(keys[p[b] as int], keys[p[a] as int], descending) {
        assert(tied(keys[p[a] as int], keys[p[b] as int]));
    }
}

proof fn lemma_unique_from(
    p: Seq<usize>,
    q: Seq<usize>,
    keys: Seq<KeyValue>,
    descending: bool,
    a: int,
)
    requires
        is_stable_order(p, keys, descending),
        is_stable_order(q, keys, descending),
        0 <= a <= p.len(),
        forall|i: int| 0 <= i < a ==> p[i] == q[i],
    ensures
        p == q,
    decreases p.len() - a,
{
    let n = p.len();
    if a == n {
        assert(p =~= q);
    } else {
        lemma_positions_cover(p, n);
        lemma_positions_cover(q, n);
        let x = p[a];
        let y = q[a];
        if x != y {
            assert(0 <= y < n);
            assert(occurs(p, y as int));
            assert(occurs(q, x as int));
            let b = choose|b: int| 0 <= b < n && #[trigger] p[b] as int == y as int;
            let c = choose|c: int| 0 <= c < n && #[trigger] q[c] as int == x as int;
            if b < a {
                assert(q[b] == y);
                assert(false);
            }
            if c < a {
                assert(p[c] == x);
                assert(false);
            }
            lemma_order_is_ahead(p, keys, descending, a, b);
            lemma_order_is_ahead(q, keys, descending, a, c);
            assert(false);
        }
        lemma_unique_from(p, q, keys, descending, a + 1);
    }
}

/// A list of keys has one stable order: the order that a stable sort gives
/// is determined by the keys alone.
pub proof fn law_stable_order_unique(
    p: Seq<usize>,
    q: Seq<usize>,
    keys: Seq<KeyValue>,
    descending: bool,
)
    requires
        is_stable_order(p, keys, descending),
        is_stable_order(q, keys, descending),
    ensures
        p == q,
{
    lemma_unique_from(p, q, keys, descending, 0);
}

/// The metadata entry that a package names for each of its mangas, covers
/// and chapters is recognised as such.
pub proof fn law_entry_paths_recognised(c: PackageContents, d: DirsOptions, k: u128, i: int, ch: u128)
    requires
        package_layout(c, d),
        c.data@.contains_key(k),
    ensures
        names_manga(c, d, spec_mangas_add(d, metadata_entry_name(k))),
        0 <= i < c.data@[k].covers@.len() ==> names_cover(
            c,
            d,
            spec_covers_add(d, metadata_entry_name(c.data@[k].covers@[i])),
        ),
        c.data@[k].chapters@.contains_key(ch) ==> names_chapter(
            c,
            d,
            spec_chapters_add(d, chapter_entry_name(ch)),
        ),
{
}

/// The segments that `a` closes stay the first segments closed by any path
/// that extends `a`.
proof fn lemma_scan_extends(a: Seq<char>, b: Seq<char>)
    ensures
        scan(a).0.len() <= scan(a + b).0.len(),
        scan(a + b).0.subrange(0, scan(a).0.len() as int) == scan(a).0,
    decreases b.len(),
{
    if b.len() == 0 {
        assert(a + b =~= a);
        assert(scan(a).0.subrange(0, scan(a).0.len() as int) =~= scan(a).0);
    } else {
        lemma_scan_extends(a, b.drop_last());
        assert((a + b).drop_last() =~= a + b.drop_last());
        let prev = scan(a + b.drop_last()).0;
        let k = scan(a).0.len() as int;
        assert forall|cur: Seq<char>| #[trigger] prev.push(cur).subrange(0, k) == prev.subrange(0, k) by {
            assert(prev.push(cur).subrange(0, k) =~= prev.subrange(0, k));
        }
    }
}

/// The named components of `base` are the segments closed by `base`
/// followed by a separator.
proof fn lemma_close_base(base: Seq<char>)
    requires
        base.len() > 0,
    ensures
        base.last() == '/' ==> normal_components(base) == scan(base).0,
        base.last() != '/' ==> normal_components(base) == scan(base + seq!['/']).0,
{
    lemma_scan_bound(base);
    if base.last() == '/' {
        assert(base.subrange(scan(base).1, base.len() as int) =~= Seq::<char>::empty());
    } else {
        let t = base + seq!['/'];
        assert(t.drop_last() =~= base);
        assert(t.subrange(scan(base).1, t.len() - 1) =~= base.subrange(
            scan(base).1,
            base.len() as int,
        ));
    }
}

/// A relative path taken inside the data directory stays inside it: its
/// components start with those of the data directory.
pub proof fn law_data_dir_add_stays_inside(o: DirsOptions, p: Seq<char>)
    requires
        !spec_is_absolute(p),
    ensures
        spec_starts_with(spec_data_dir_add(o, p), o.data_dir@),
{
    let base = o.data_dir@;
    let r = spec_data_dir_add(o, p);
    if base.len() == 0 {
        assert(base.subrange(0, 0) =~= Seq::<char>::empty());
        assert(components(base) =~= Seq::<Seq<char>>::empty());
        assert(components(r).subrange(0, 0) =~= Seq::<Seq<char>>::empty());
    } else {
        let closed = if base.last() == '/' { base } else { base + seq!['/'] };
        assert(r =~= closed + p);
        lemma_close_base(base);
        lemma_scan_extends(closed, p);
        let n = normal_components(base);
        lemma_scan_bound(r);
        assert(normal_components(r).subrange(0, n.len() as int) =~= n) by {
            let st = scan(r);
            let cur = r.subrange(st.1, r.len() as int);
            assert(st.0.push(cur).subrange(0, n.len() as int) =~= st.0.subrange(0, n.len() as int));
        }
        assert(head_component(r) == head_component(base)) by {
            assert(r[0] == base[0]);
            if base.len() > 1 {
                assert(r[1] == base[1]);
            } else if base.last() != '/' {
                assert(closed[1] == '/');
                assert(r[1] == '/');
            }
        }
        let h = head_component(base);
        assert(components(r).subrange(0, components(base).len() as int) =~= components(base)) by {
            assert(components(r) == h + normal_components(r));
            assert(components(base) == h + n);
            assert forall|i: int| 0 <= i < h.len() + n.len() implies #[trigger] components(r)[i]
                == components(base)[i] by {
                if i >= h.len() {
                    assert(normal_components(r).subrange(0, n.len() as int)[i - h.len()] == n[i
                        - h.len()]);
                }
            }
        }
    }
}

/// The directory names of the image qualities: `data` stands for the data
/// images, `data-saver` for the data-saver images, and no other name for a
/// quality.
pub proof fn law_mode_names(name: Option<Seq<char>>)
    ensures
        mode_named(name) == Some(Mode::Data) <==> name == Some("data"@),
        mode_named(name) == Some(Mode::DataSaver) <==> name == Some("data-saver"@),
        mode_named(name) is None <==> name != Some("data"@) && name != Some("data-saver"@),
{
    reveal_strlit("data");
    reveal_strlit("data-saver");
    assert("data"@.len() != "data-saver"@.len());
}

} // verus!
