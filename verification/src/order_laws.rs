//! What the orders of mangas and chapters give, stated over the entries'
//! own fields.

use vstd::prelude::*;

use crate::images::{image_number, image_keys};
use crate::model::{views, ChapterEntry, MangaEntry, OrderDirection};
use crate::random::draw_index;
use crate::orders::{
    chapter_key, chapter_keys, chapter_order_direction, manga_key, manga_keys,
    manga_order_direction, stably_sorted, ChapterSortOrder, MangaSortOrder,
};
use crate::sort::{comes_before, is_stable_order, texts_le, KeyValue};

verus! {

/// Every two items of a stably sorted list come in the order of their keys.
proof fn lemma_sorted_pairs<T>(
    items: Seq<T>,
    keys: Seq<KeyValue>,
    d: bool,
    r: Seq<T>,
    key_of: spec_fn(T) -> KeyValue,
)
    requires
        stably_sorted(items, keys, d, r),
        keys.len() == items.len(),
        forall|i: int| 0 <= i < items.len() ==> #[trigger] keys[i] == key_of(items[i]),
    ensures
        r.len() == items.len(),
        forall|j: int, k: int|
            #![trigger r[j], r[k]]
            0 <= j < k < r.len() ==> comes_before(key_of(r[j]), key_of(r[k]), d),
{
    let p = choose|p: Seq<usize>|
        #[trigger] is_stable_order(p, keys, d) && r.len() == p.len() && forall|j: int|
            0 <= j < p.len() ==> r[j] == items[#[trigger] p[j] as int];
    assert forall|j: int, k: int| #![trigger r[j], r[k]] 0 <= j < k < r.len() implies comes_before(
        key_of(r[j]),
        key_of(r[k]),
        d,
    ) by {
        assert(p[j] < keys.len() && p[k] < keys.len());
        assert(comes_before(keys[p[j] as int], keys[p[k] as int], d));
        assert(r[j] == items[p[j] as int]);
        assert(r[k] == items[p[k] as int]);
    }
}

/// Whether a date that may be missing comes no later than another: a missing
/// date comes first.
pub open spec fn maybe_no_later(a: Option<i128>, b: Option<i128>) -> bool {
    a matches Some(x) ==> (b matches Some(y) && x <= y)
}

/// Whether a year that may be missing comes no later than another.
pub open spec fn year_no_later(a: Option<u16>, b: Option<u16>) -> bool {
    a matches Some(x) ==> (b matches Some(y) && x <= y)
}

/// Mangas listed by an order that ranks them come by creation date, by
/// title list, by update date (unknown first) or by year (unknown first),
/// earliest first when ascending and latest first when descending; the other
/// orders leave the list as it is.
pub proof fn law_manga_order_result(items: Seq<MangaEntry>, order: MangaSortOrder, r: Seq<MangaEntry>)
    requires
        manga_order_direction(order) is None ==> r == items,
        manga_order_direction(order) matches Some(d) ==> stably_sorted(
            items,
            manga_keys(items, order),
            d,
            r,
        ),
    ensures
        r.len() == items.len(),
        order matches MangaSortOrder::CreatedAt(dir) ==> forall|j: int, k: int|
            #![trigger r[j], r[k]]
            0 <= j < k < r.len() ==> if dir
                == OrderDirection::Ascending {
                r[j].created_at <= r[k].created_at
            } else {
                r[k].created_at <= r[j].created_at
            },
        order matches MangaSortOrder::Title(dir) ==> forall|j: int, k: int|
            #![trigger r[j], r[k]]
            0 <= j < k < r.len() ==> if dir
                == OrderDirection::Ascending {
                texts_le(views(r[j].titles@), views(r[k].titles@))
            } else {
                texts_le(views(r[k].titles@), views(r[j].titles@))
            },
        order matches MangaSortOrder::UpdatedAt(dir) ==> forall|j: int, k: int|
            #![trigger r[j], r[k]]
            0 <= j < k < r.len() ==> if dir
                == OrderDirection::Ascending {
                maybe_no_later(r[j].updated_at, r[k].updated_at)
            } else {
                maybe_no_later(r[k].updated_at, r[j].updated_at)
            },
        order matches MangaSortOrder::Year(dir) ==> forall|j: int, k: int|
            #![trigger r[j], r[k]]
            0 <= j < k < r.len() ==> if dir
                == OrderDirection::Ascending {
                year_no_later(r[j].year, r[k].year)
            } else {
                year_no_later(r[k].year, r[j].year)
            },
        order is FollowedCount || order is LatestUploadedChapter || order is Relevance
            || order is Rating ==> r == items,
{
    if let Some(d) = manga_order_direction(order) {
        let key_of = |m: MangaEntry| manga_key(m, order);
        lemma_sorted_pairs(items, manga_keys(items, order), d, r, key_of);
    }
}

/// Chapters come by the date of the order (an unknown date first), earliest
/// first when ascending and latest first when descending.
pub proof fn law_chapter_order_result(
    items: Seq<ChapterEntry>,
    order: ChapterSortOrder,
    r: Seq<ChapterEntry>,
)
    requires
        stably_sorted(items, chapter_keys(items, order), chapter_order_direction(order), r),
    ensures
        r.len() == items.len(),
        order matches ChapterSortOrder::CreatedAt(dir) ==> forall|j: int, k: int|
            #![trigger r[j], r[k]]
            0 <= j < k < r.len() ==> if dir
                == OrderDirection::Ascending {
                r[j].created_at <= r[k].created_at
            } else {
                r[k].created_at <= r[j].created_at
            },
        order matches ChapterSortOrder::PublishAt(dir) ==> forall|j: int, k: int|
            #![trigger r[j], r[k]]
            0 <= j < k < r.len() ==> if dir
                == OrderDirection::Ascending {
                maybe_no_later(r[j].publish_at, r[k].publish_at)
            } else {
                maybe_no_later(r[k].publish_at, r[j].publish_at)
            },
        order matches ChapterSortOrder::ReadableAt(dir) ==> forall|j: int, k: int|
            #![trigger r[j], r[k]]
            0 <= j < k < r.len() ==> if dir
                == OrderDirection::Ascending {
                maybe_no_later(r[j].readable_at, r[k].readable_at)
            } else {
                maybe_no_later(r[k].readable_at, r[j].readable_at)
            },
        order matches ChapterSortOrder::UpdatedAt(dir) ==> forall|j: int, k: int|
            #![trigger r[j], r[k]]
            0 <= j < k < r.len() ==> if dir
                == OrderDirection::Ascending {
                maybe_no_later(r[j].updated_at, r[k].updated_at)
            } else {
                maybe_no_later(r[k].updated_at, r[j].updated_at)
            },
{
    let d = chapter_order_direction(order);
    let key_of = |c: ChapterEntry| chapter_key(c, order);
    lemma_sorted_pairs(items, chapter_keys(items, order), d, r, key_of);
}

/// Image names are ordered by the first number in each, smallest first,
/// names without a number before all others.
pub proof fn law_image_names_order(names: Seq<String>, r: Seq<String>)
    requires
        stably_sorted(names, image_keys(names), false, r),
    ensures
        r.len() == names.len(),
        forall|j: int, k: int|
            #![trigger r[j], r[k]]
            0 <= j < k < r.len() ==> maybe_no_later(image_number(r[j]@), image_number(r[k]@)),
{
    let key_of = |n: String| KeyValue::MaybeInt(image_number(n@));
    lemma_sorted_pairs(names, image_keys(names), false, r, key_of);
}

/// Every item can be drawn: the draw equal to an item's position picks it.
pub proof fn law_every_position_can_be_drawn(i: usize, len: nat)
    requires
        i < len,
    ensures
        draw_index(i as u64, len) == i,
{
    assert((i as u64) as usize == i);
    vstd::arithmetic::div_mod::lemma_small_mod(i as nat, len);
}

} // verus!
