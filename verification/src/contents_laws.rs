//! What a table of contents assembled from stored objects holds, and what a
//! "first relationship" is, stated position by position.

use vstd::prelude::*;

use crate::contents::{assembled_has, chapters_of, covers_of, manga_of};
use crate::model::MangaEntry;
use crate::images::ChapterImagesData;
use crate::model::{first_of_type, ChapterEntry, CoverEntry, Relationship, RelationshipType};

verus! {

/// The first relationship of a kind is the one at the first position that
/// holds that kind; there is none exactly when no position holds it.
pub proof fn law_first_of_type<P>(s: Seq<Relationship<P>>, t: RelationshipType)
    ensures
        first_of_type(s, t) is None <==> forall|i: int| 0 <= i < s.len() ==> (#[trigger] s[i]).type_
            != t,
        forall|i: int|
            0 <= i < s.len() && (#[trigger] s[i]).type_ == t && (forall|j: int|
                0 <= j < i ==> s[j].type_ != t) ==> first_of_type(s, t) == Some(s[i]),
    decreases s.len(),
{
    if s.len() > 0 {
        let u = s.drop_first();
        if s[0].type_ == t {
            assert forall|i: int|
                0 <= i < s.len() && (#[trigger] s[i]).type_ == t && (forall|j: int|
                    0 <= j < i ==> s[j].type_ != t) implies first_of_type(s, t) == Some(s[i]) by {
                if i > 0 {
                    assert(s[0].type_ != t);
                }
            }
        } else {
            law_first_of_type(u, t);
            assert(first_of_type(s, t) == first_of_type(u, t));
            assert forall|i: int| 0 <= i < u.len() implies #[trigger] u[i] == s[i + 1] by {}
            assert((forall|i: int| 0 <= i < s.len() ==> (#[trigger] s[i]).type_ != t) <==> (forall|
                i: int,
            | 0 <= i < u.len() ==> (#[trigger] u[i]).type_ != t)) by {
                if forall|i: int| 0 <= i < u.len() ==> (#[trigger] u[i]).type_ != t {
                    assert forall|i: int| 0 <= i < s.len() implies (#[trigger] s[i]).type_ != t by {
                        if i > 0 {
                            assert(s[i] == u[i - 1]);
                        }
                    }
                }
            }
            assert forall|i: int|
                0 <= i < s.len() && (#[trigger] s[i]).type_ == t && (forall|j: int|
                    0 <= j < i ==> s[j].type_ != t) implies first_of_type(s, t) == Some(s[i]) by {
                assert(s[i] == u[i - 1]);
                assert forall|j: int| 0 <= j < i - 1 implies u[j].type_ != t by {
                    assert(u[j] == s[j + 1]);
                }
            }
        }
    }
}

/// Whether a stored object's first manga relationship names manga `m`.
pub open spec fn of_manga<P>(rels: Seq<Relationship<P>>, m: u128) -> bool {
    first_of_type(rels, RelationshipType::Manga) matches Some(r) && r.id == m
}

/// The covers that a package lists for manga `m` are the covers whose first
/// manga relationship names `m`, each at its place: one more such cover at
/// the end of the list adds its id at the end.
pub proof fn law_assembled_covers(s: Seq<CoverEntry>, m: u128)
    ensures
        forall|x: u128|
            covers_of(s, m).contains(x) <==> exists|i: int|
                0 <= i < s.len() && (#[trigger] s[i]).id == x && of_manga(s[i].relationships@, m),
        covers_of(s, m).len() <= s.len(),
        s.len() > 0 && of_manga(s.last().relationships@, m) ==> covers_of(s, m) == covers_of(
            s.drop_last(),
            m,
        ).push(s.last().id),
        s.len() > 0 && !of_manga(s.last().relationships@, m) ==> covers_of(s, m) == covers_of(
            s.drop_last(),
            m,
        ),
    decreases s.len(),
{
    if s.len() > 0 {
        let u = s.drop_last();
        law_assembled_covers(u, m);
        let last = s.last();
        assert(of_manga(last.relationships@, m) <==> manga_of(last.relationships@) == Some(m));
        assert forall|x: u128|
            covers_of(s, m).contains(x) <==> exists|i: int|
                0 <= i < s.len() && (#[trigger] s[i]).id == x && of_manga(s[i].relationships@, m) by {
            let w = covers_of(u, m);
            if covers_of(s, m).contains(x) {
                let j = choose|j: int| 0 <= j < covers_of(s, m).len() && covers_of(s, m)[j] == x;
                if j < w.len() {
                    assert(covers_of(s, m)[j] == w[j]);
                    assert(w.contains(x));
                    let i = choose|i: int|
                        0 <= i < u.len() && (#[trigger] u[i]).id == x && of_manga(u[i].relationships@, m);
                    assert(s[i] == u[i]);
                } else {
                    assert(s[s.len() - 1] == last);
                }
            }
            if exists|i: int|
                0 <= i < s.len() && (#[trigger] s[i]).id == x && of_manga(s[i].relationships@, m) {
                let i = choose|i: int|
                    0 <= i < s.len() && (#[trigger] s[i]).id == x && of_manga(s[i].relationships@, m);
                if i < u.len() {
                    assert(u[i] == s[i]);
                    assert(w.contains(x));
                    let j = choose|j: int| 0 <= j < w.len() && w[j] == x;
                    assert(covers_of(s, m)[j] == x);
                } else {
                    assert(s[i] == last);
                    assert(covers_of(s, m)[w.len() as int] == x);
                }
            }
        }
    }
}

/// Chapter `c` is in the chapters that a package holds for manga `m`
/// exactly when some stored chapter with that id names `m` first; its
/// images are those of the last such chapter.
pub proof fn law_assembled_chapters(s: Seq<(ChapterEntry, ChapterImagesData)>, m: u128)
    ensures
        forall|c: u128|
            #[trigger] chapters_of(s, m).contains_key(c) <==> exists|i: int|
                0 <= i < s.len() && (#[trigger] s[i]).0.id == c && of_manga(s[i].0.relationships@, m),
        forall|i: int|
            0 <= i < s.len() && of_manga((#[trigger] s[i]).0.relationships@, m) && (forall|j: int|
                i < j < s.len() ==> !(s[j].0.id == s[i].0.id && of_manga(s[j].0.relationships@, m)))
                ==> chapters_of(s, m).contains_key(s[i].0.id) && chapters_of(s, m)[s[i].0.id].data@
                == s[i].1.data@ && chapters_of(s, m)[s[i].0.id].data_saver@ == s[i].1.data_saver@,
    decreases s.len(),
{
    if s.len() > 0 {
        let u = s.drop_last();
        law_assembled_chapters(u, m);
        let last = s.last();
        assert(of_manga(last.0.relationships@, m) <==> manga_of(last.0.relationships@) == Some(m));
        assert forall|i: int| 0 <= i < u.len() implies #[trigger] u[i] == s[i] by {}
        assert forall|c: u128|
            #[trigger] chapters_of(s, m).contains_key(c) <==> exists|i: int|
                0 <= i < s.len() && (#[trigger] s[i]).0.id == c && of_manga(s[i].0.relationships@, m) by {
            if chapters_of(s, m).contains_key(c) {
                if of_manga(last.0.relationships@, m) && last.0.id == c {
                    assert(s[s.len() - 1] == last);
                } else {
                    assert(chapters_of(u, m).contains_key(c));
                    let i = choose|i: int|
                        0 <= i < u.len() && (#[trigger] u[i]).0.id == c && of_manga(u[i].0.relationships@, m);
                    assert(s[i] == u[i]);
                }
            }
            if exists|i: int|
                0 <= i < s.len() && (#[trigger] s[i]).0.id == c && of_manga(s[i].0.relationships@, m) {
                let i = choose|i: int|
                    0 <= i < s.len() && (#[trigger] s[i]).0.id == c && of_manga(s[i].0.relationships@, m);
                if i < u.len() {
                    assert(u[i] == s[i]);
                    assert(chapters_of(u, m).contains_key(c));
                } else {
                    assert(s[i] == last);
                }
            }
        }
        assert forall|i: int|
            0 <= i < s.len() && of_manga((#[trigger] s[i]).0.relationships@, m) && (forall|j: int|
                i < j < s.len() ==> !(s[j].0.id == s[i].0.id && of_manga(s[j].0.relationships@, m)))
                implies chapters_of(s, m).contains_key(s[i].0.id) && chapters_of(s, m)[s[i].0.id].data@
                == s[i].1.data@ && chapters_of(s, m)[s[i].0.id].data_saver@ == s[i].1.data_saver@ by {
            if i < u.len() {
                assert(u[i] == s[i]);
                assert(!(last.0.id == s[i].0.id && of_manga(last.0.relationships@, m))) by {
                    assert(s[s.len() - 1] == last);
                }
                assert forall|j: int|
                    i < j < u.len() implies !(u[j].0.id == u[i].0.id && of_manga(
                        u[j].0.relationships@,
                        m,
                    )) by {
                    assert(u[j] == s[j]);
                }
            } else {
                assert(s[i] == last);
            }
        }
    }
}

/// A manga goes into a package assembled from stored objects exactly when
/// it is among the mangas, some cover names it first and some chapter names
/// it first.
pub proof fn law_assembled_mangas(
    covers: Seq<CoverEntry>,
    chapters: Seq<(ChapterEntry, ChapterImagesData)>,
    mangas: Seq<MangaEntry>,
    m: u128,
)
    ensures
        assembled_has(covers, chapters, mangas, m) <==> {
            &&& exists|i: int| 0 <= i < mangas.len() && (#[trigger] mangas[i]).id == m
            &&& exists|i: int| 0 <= i < covers.len() && of_manga((#[trigger] covers[i]).relationships@, m)
            &&& exists|i: int|
                0 <= i < chapters.len() && of_manga((#[trigger] chapters[i]).0.relationships@, m)
        },
{
    law_assembled_covers(covers, m);
    if exists|i: int| 0 <= i < covers.len() && of_manga((#[trigger] covers[i]).relationships@, m) {
        let i = choose|i: int| 0 <= i < covers.len() && of_manga((#[trigger] covers[i]).relationships@, m);
        assert(covers_of(covers, m).contains(covers[i].id));
    }
    if covers_of(covers, m).len() > 0 {
        assert(covers_of(covers, m).contains(covers_of(covers, m)[0]));
    }
    assert forall|i: int| 0 <= i < chapters.len() implies (manga_of(
        (#[trigger] chapters[i]).0.relationships@,
    ) == Some(m) <==> of_manga(chapters[i].0.relationships@, m)) by {}
}

} // verus!
