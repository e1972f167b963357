//! What each edit of a package being built leaves in it, stated over the
//! covers and chapters themselves.

use vstd::prelude::*;

use crate::builder::{chapter_added, chapter_removed, cover_removed, manga_set, with_cover};
use crate::contents::{chapters_or_empty, covers_or_empty, PMangaObject};
use crate::images::ChapterImagesData;
use crate::model::Mode;

verus! {

/// Adding a cover to manga `k`: the manga is there afterwards and lists the
/// cover; a cover it listed already changes nothing, a new one is appended
/// after the covers it had; its chapters and every other manga stay.
pub proof fn law_add_cover_result(
    old: Map<u128, PMangaObject>,
    new: Map<u128, PMangaObject>,
    k: u128,
    cover: u128,
)
    requires
        manga_set(
            old,
            new,
            k,
            with_cover(covers_or_empty(old, k), cover),
            chapters_or_empty(old, k),
        ),
    ensures
        new.contains_key(k),
        new[k].covers@.contains(cover),
        covers_or_empty(old, k).contains(cover) ==> new[k].covers@ == covers_or_empty(old, k),
        !covers_or_empty(old, k).contains(cover) ==> new[k].covers@.len() == covers_or_empty(
            old,
            k,
        ).len() + 1 && new[k].covers@[new[k].covers@.len() - 1] == cover && forall|i: int|
            0 <= i < covers_or_empty(old, k).len() ==> #[trigger] new[k].covers@[i]
                == covers_or_empty(old, k)[i],
        old.contains_key(k) ==> new[k].chapters@ == old[k].chapters@,
        !old.contains_key(k) ==> new[k].chapters@.dom().is_empty(),
        forall|q: u128| #[trigger] new.contains_key(q) <==> old.contains_key(q) || q == k,
        forall|q: u128| #[trigger] old.contains_key(q) && q != k ==> new[q] == old[q],
{
    assert(new.dom().contains(k));
    let s = covers_or_empty(old, k);
    if !s.contains(cover) {
        assert(new[k].covers@ == s.push(cover));
    } else {
        let i = choose|i: int| 0 <= i < s.len() && s[i] == cover;
        assert(new[k].covers@[i] == cover);
    }
    if !s.contains(cover) {
        assert(new[k].covers@[s.len() as int] == cover);
    }
    assert forall|q: u128| #[trigger] new.contains_key(q) <==> old.contains_key(q) || q == k by {
        assert(new.dom().contains(q) == old.dom().insert(k).contains(q));
    }
    assert forall|q: u128| #[trigger] old.contains_key(q) && q != k implies new[q] == old[q] by {
        assert(new.contains_key(q));
    }
}

/// Adding the `mode` images of chapter `c` to manga `k`: the chapter's list
/// in that quality becomes the given images and its list in the other
/// quality is what it was (empty for a new chapter); a manga that was not
/// there starts with cover `cover`, one that was keeps its covers; the
/// other chapters and mangas stay.
pub proof fn law_add_chapter_result(
    old: Map<u128, PMangaObject>,
    new: Map<u128, PMangaObject>,
    k: u128,
    cover: u128,
    c: u128,
    images: ChapterImagesData,
    mode: Mode,
)
    requires
        chapter_added(old, new, k, cover, c, images, mode),
    ensures
        new.contains_key(k),
        new[k].chapters@.contains_key(c),
        mode == Mode::Data ==> new[k].chapters@[c].data@ == images.data@,
        mode == Mode::DataSaver ==> new[k].chapters@[c].data_saver@ == images.data_saver@,
        mode == Mode::Data && old.contains_key(k) && old[k].chapters@.contains_key(c)
            ==> new[k].chapters@[c].data_saver@ == old[k].chapters@[c].data_saver@,
        mode == Mode::DataSaver && old.contains_key(k) && old[k].chapters@.contains_key(c)
            ==> new[k].chapters@[c].data@ == old[k].chapters@[c].data@,
        mode == Mode::Data && !(old.contains_key(k) && old[k].chapters@.contains_key(c))
            ==> new[k].chapters@[c].data_saver@.len() == 0,
        mode == Mode::DataSaver && !(old.contains_key(k) && old[k].chapters@.contains_key(c))
            ==> new[k].chapters@[c].data@.len() == 0,
        old.contains_key(k) ==> new[k].covers@ == old[k].covers@,
        !old.contains_key(k) ==> new[k].covers@ == seq![cover],
        forall|d: u128|
            #[trigger] new[k].chapters@.contains_key(d) && d != c ==> old.contains_key(k)
                && old[k].chapters@.contains_key(d) && new[k].chapters@[d] == old[k].chapters@[d],
        old.contains_key(k) ==> forall|d: u128|
            #[trigger] old[k].chapters@.contains_key(d) ==> new[k].chapters@.contains_key(d),
        forall|q: u128| #[trigger] new.contains_key(q) <==> old.contains_key(q) || q == k,
        forall|q: u128| #[trigger] old.contains_key(q) && q != k ==> new[q] == old[q],
{
    assert(new.dom().contains(k));
    assert(new[k].chapters@.dom().contains(c));
    assert forall|q: u128| #[trigger] new.contains_key(q) <==> old.contains_key(q) || q == k by {
        assert(new.dom().contains(q) == old.dom().insert(k).contains(q));
    }
    assert forall|q: u128| #[trigger] old.contains_key(q) && q != k implies new[q] == old[q] by {
        assert(new.contains_key(q));
    }
    assert forall|d: u128|
        #[trigger] new[k].chapters@.contains_key(d) && d != c implies old.contains_key(k)
            && old[k].chapters@.contains_key(d) && new[k].chapters@[d] == old[k].chapters@[d] by {
        assert(new[k].chapters@.dom().contains(d));
        assert(chapters_or_empty(old, k).dom().insert(c).contains(d));
    }
    if old.contains_key(k) {
        assert forall|d: u128| #[trigger] old[k].chapters@.contains_key(d) implies new[k].chapters@.contains_key(
            d,
        ) by {
            assert(chapters_or_empty(old, k).dom().insert(c).contains(d));
        }
    }
}

/// Removing cover `id` from manga `k`, where it first stood at `idx`: the
/// covers before it stay, those after it move up by one, the manga keeps
/// at least one cover, and its chapters and every other manga stay.
pub proof fn law_remove_cover_result(
    old: Map<u128, PMangaObject>,
    new: Map<u128, PMangaObject>,
    k: u128,
    id: u128,
    idx: int,
)
    requires
        cover_removed(old, new, k, id, idx),
    ensures
        old.contains_key(k) && new.contains_key(k),
        0 <= idx < old[k].covers@.len() && old[k].covers@[idx] == id,
        forall|i: int| 0 <= i < idx ==> #[trigger] old[k].covers@[i] != id,
        new[k].covers@.len() == old[k].covers@.len() - 1,
        new[k].covers@.len() >= 1,
        forall|i: int| 0 <= i < idx ==> #[trigger] new[k].covers@[i] == old[k].covers@[i],
        forall|i: int| idx <= i < new[k].covers@.len() ==> #[trigger] new[k].covers@[i]
            == old[k].covers@[i + 1],
        new[k].chapters@ == old[k].chapters@,
        forall|q: u128| #[trigger] new.contains_key(q) <==> old.contains_key(q),
        forall|q: u128| #[trigger] old.contains_key(q) && q != k ==> new[q] == old[q],
{
    assert(new.dom().contains(k));
}

/// Removing chapter `id` from manga `k`: that chapter is gone, every other
/// chapter stays as it was, and the covers and every other manga stay.
pub proof fn law_remove_chapter_result(
    old: Map<u128, PMangaObject>,
    new: Map<u128, PMangaObject>,
    k: u128,
    id: u128,
)
    requires
        chapter_removed(old, new, k, id),
    ensures
        old.contains_key(k) && new.contains_key(k),
        old[k].chapters@.contains_key(id),
        !new[k].chapters@.contains_key(id),
        forall|c: u128|
            c != id ==> (#[trigger] new[k].chapters@.contains_key(c) <==> old[k].chapters@.contains_key(
                c,
            )),
        forall|c: u128|
            #[trigger] new[k].chapters@.contains_key(c) ==> new[k].chapters@[c] == old[k].chapters@[c],
        new[k].covers@ == old[k].covers@,
        forall|q: u128| #[trigger] new.contains_key(q) <==> old.contains_key(q),
        forall|q: u128| #[trigger] old.contains_key(q) && q != k ==> new[q] == old[q],
{
    assert(new.dom().contains(k));
}

} // verus!
