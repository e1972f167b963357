//! The orders in which mangas and chapters can be listed.

use vstd::prelude::*;

use crate::model::{views, ChapterEntry, MangaEntry, OrderDirection};
use crate::sort::{is_stable_order, key_values, sort_by_keys, KeyValue, SortKey};

verus! {

/// How mangas can be ordered.
#[derive(Debug, Clone, Copy, PartialEq, Eq, Structural)]
pub enum MangaSortOrder {
    CreatedAt(OrderDirection),
    FollowedCount(OrderDirection),
    LatestUploadedChapter(OrderDirection),
    Relevance(OrderDirection),
    Title(OrderDirection),
    UpdatedAt(OrderDirection),
    Year(OrderDirection),
    Rating(OrderDirection),
}

/// How chapters can be ordered by their dates.
#[derive(Debug, Clone, Copy, PartialEq, Eq, Structural)]
pub enum ChapterSortOrder {
    CreatedAt(OrderDirection),
    PublishAt(OrderDirection),
    ReadableAt(OrderDirection),
    UpdatedAt(OrderDirection),
}

/// Whether the direction is descending.
pub open spec fn is_descending(d: OrderDirection) -> bool {
    d == OrderDirection::Descending
}

/// Whether an order of mangas reorders them, and in which direction: the
/// orders by followers, latest chapter, relevance and rating leave the list
/// as it is.
pub open spec fn manga_order_direction(order: MangaSortOrder) -> Option<bool> {
    match order {
        MangaSortOrder::CreatedAt(d) => Some(is_descending(d)),
        MangaSortOrder::Title(d) => Some(is_descending(d)),
        MangaSortOrder::UpdatedAt(d) => Some(is_descending(d)),
        MangaSortOrder::Year(d) => Some(is_descending(d)),
        _ => None,
    }
}

/// A year as a key that may be missing.
pub open spec fn year_key(y: Option<u16>) -> Option<i128> {
    match y {
        Some(v) => Some(v as i128),
        None => None,
    }
}

/// The key by which an order ranks a manga: its creation date, its titles,
/// its update date or its year.
pub open spec fn manga_key(m: MangaEntry, order: MangaSortOrder) -> KeyValue {
    match order {
        MangaSortOrder::CreatedAt(_) => KeyValue::Int(m.created_at),
        MangaSortOrder::Title(_) => KeyValue::Texts(views(m.titles@)),
        MangaSortOrder::UpdatedAt(_) => KeyValue::MaybeInt(m.updated_at),
        _ => KeyValue::MaybeInt(year_key(m.year)),
    }
}

/// The keys of the mangas under an order.
pub open spec fn manga_keys(s: Seq<MangaEntry>, order: MangaSortOrder) -> Seq<KeyValue> {
    s.map_values(|m: MangaEntry| manga_key(m, order))
}

/// The direction of an order of chapters.
pub open spec fn chapter_order_direction(order: ChapterSortOrder) -> bool {
    match order {
        ChapterSortOrder::CreatedAt(d) => is_descending(d),
        ChapterSortOrder::PublishAt(d) => is_descending(d),
        ChapterSortOrder::ReadableAt(d) => is_descending(d),
        ChapterSortOrder::UpdatedAt(d) => is_descending(d),
    }
}

/// The date by which an order ranks a chapter.
pub open spec fn chapter_key(c: ChapterEntry, order: ChapterSortOrder) -> KeyValue {
    match order {
        ChapterSortOrder::CreatedAt(_) => KeyValue::Int(c.created_at),
        ChapterSortOrder::PublishAt(_) => KeyValue::MaybeInt(c.publish_at),
        ChapterSortOrder::ReadableAt(_) => KeyValue::MaybeInt(c.readable_at),
        ChapterSortOrder::UpdatedAt(_) => KeyValue::MaybeInt(c.updated_at),
    }
}

/// The keys of the chapters under an order.
pub open spec fn chapter_keys(s: Seq<ChapterEntry>, order: ChapterSortOrder) -> Seq<KeyValue> {
    s.map_values(|c: ChapterEntry| chapter_key(c, order))
}

/// `r` is `items` rearranged by a stable order of `keys`.
pub open spec fn stably_sorted<T>(
    items: Seq<T>,
    keys: Seq<KeyValue>,
    descending: bool,
    r: Seq<T>,
) -> bool {
    exists|p: Seq<usize>|
        #[trigger] is_stable_order(p, keys, descending) && r.len() == p.len() && forall|j: int|
            0 <= j < p.len() ==> r[j] == items[#[trigger] p[j] as int]
}

fn clone_texts(v: &Vec<String>) -> (r: Vec<String>)
    ensures
        views(r@) == views(v@),
{
    let mut r: Vec<String> = Vec::new();
    let mut i: usize = 0;
    while i < v.len()
        invariant
            0 <= i <= v@.len(),
            r@.len() == i,
            forall|j: int| 0 <= j < i ==> #[trigger] r@[j]@ == v@[j]@,
        decreases v@.len() - i,
    {
        r.push(v[i].clone());
        i = i + 1;
    }
    assert(views(r@) =~= views(v@));
    r
}

fn manga_sort_key(m: &MangaEntry, order: MangaSortOrder) -> (r: SortKey)
    ensures
        r@ == manga_key(*m, order),
{
    match order {
        MangaSortOrder::CreatedAt(_) => SortKey::Int(m.created_at),
        MangaSortOrder::Title(_) => SortKey::Texts(clone_texts(&m.titles)),
        MangaSortOrder::UpdatedAt(_) => SortKey::MaybeInt(m.updated_at),
        _ => SortKey::MaybeInt(
            match m.year {
                Some(y) => Some(y as i128),
                None => None,
            },
        ),
    }
}

fn chapter_sort_key(c: &ChapterEntry, order: ChapterSortOrder) -> (r: SortKey)
    ensures
        r@ == chapter_key(*c, order),
{
    match order {
        ChapterSortOrder::CreatedAt(_) => SortKey::Int(c.created_at),
        ChapterSortOrder::PublishAt(_) => SortKey::MaybeInt(c.publish_at),
        ChapterSortOrder::ReadableAt(_) => SortKey::MaybeInt(c.readable_at),
        ChapterSortOrder::UpdatedAt(_) => SortKey::MaybeInt(c.updated_at),
    }
}

/// Lists items in an order.
pub trait IntoSorted<P>: Sized {
    type Item;

    fn to_sorted(self, params: P) -> Vec<Self::Item>;
}

/// The keys of the mangas under an order that ranks them.
fn manga_keys_of(entries: &Vec<MangaEntry>, order: MangaSortOrder) -> (r: Vec<SortKey>)
    ensures
        key_values(r@) == manga_keys(entries@, order),
        r@.len() == entries@.len(),
{
    let mut keys: Vec<SortKey> = Vec::new();
    let mut i: usize = 0;
    while i < entries.len()
        invariant
            0 <= i <= entries@.len(),
            keys@.len() == i,
            forall|j: int| 0 <= j < i ==> #[trigger] keys@[j]@ == manga_key(entries@[j], order),
        decreases entries@.len() - i,
    {
        keys.push(manga_sort_key(&entries[i], order));
        i = i + 1;
    }
    assert(key_values(keys@) =~= manga_keys(entries@, order));
    keys
}

/// The keys of the chapters under an order.
fn chapter_keys_of(entries: &Vec<ChapterEntry>, order: ChapterSortOrder) -> (r: Vec<SortKey>)
    ensures
        key_values(r@) == chapter_keys(entries@, order),
        r@.len() == entries@.len(),
{
    let mut keys: Vec<SortKey> = Vec::new();
    let mut i: usize = 0;
    while i < entries.len()
        invariant
            0 <= i <= entries@.len(),
            keys@.len() == i,
            forall|j: int| 0 <= j < i ==> #[trigger] keys@[j]@ == chapter_key(entries@[j], order),
        decreases entries@.len() - i,
    {
        keys.push(chapter_sort_key(&entries[i], order));
        i = i + 1;
    }
    assert(key_values(keys@) =~= chapter_keys(entries@, order));
    keys
}

/// Orders `items` as `entries` are ordered by `order`: the item at a
/// position goes with the manga entry at that position. An order that does
/// not rank mangas leaves the items as they are.
pub fn sort_along_mangas<T>(items: Vec<T>, entries: &Vec<MangaEntry>, order: MangaSortOrder) -> (r:
    Vec<T>)
    requires
        items@.len() == entries@.len(),
    ensures
        manga_order_direction(order) is None ==> r@ == items@,
        manga_order_direction(order) matches Some(d) ==> stably_sorted(
            items@,
            manga_keys(entries@, order),
            d,
            r@,
        ),
{
    let descending = match order {
        MangaSortOrder::CreatedAt(d) => d == OrderDirection::Descending,
        MangaSortOrder::Title(d) => d == OrderDirection::Descending,
        MangaSortOrder::UpdatedAt(d) => d == OrderDirection::Descending,
        MangaSortOrder::Year(d) => d == OrderDirection::Descending,
        _ => {
            return items;
        },
    };
    let keys = manga_keys_of(entries, order);
    let ghost all = items@;
    let r = sort_by_keys(items, &keys, descending);
    assert(stably_sorted(all, manga_keys(entries@, order), descending, r@));
    r
}

/// Orders `items` as `entries` are ordered by `order`: the item at a
/// position goes with the chapter entry at that position.
pub fn sort_along_chapters<T>(items: Vec<T>, entries: &Vec<ChapterEntry>, order: ChapterSortOrder) -> (r:
    Vec<T>)
    requires
        items@.len() == entries@.len(),
    ensures
        stably_sorted(items@, chapter_keys(entries@, order), chapter_order_direction(order), r@),
{
    let descending = match order {
        ChapterSortOrder::CreatedAt(d) => d == OrderDirection::Descending,
        ChapterSortOrder::PublishAt(d) => d == OrderDirection::Descending,
        ChapterSortOrder::ReadableAt(d) => d == OrderDirection::Descending,
        ChapterSortOrder::UpdatedAt(d) => d == OrderDirection::Descending,
    };
    let keys = chapter_keys_of(entries, order);
    let ghost all = items@;
    let r = sort_by_keys(items, &keys, descending);
    assert(stably_sorted(all, chapter_keys(entries@, order), descending, r@));
    r
}

impl IntoSorted<MangaSortOrder> for Vec<MangaEntry> {
    type Item = MangaEntry;

    /// The mangas stably sorted by the key of the order, or as they are for
    /// an order that does not rank them.
    fn to_sorted(self, params: MangaSortOrder) -> (r: Vec<MangaEntry>)
        ensures
            manga_order_direction(params) is None ==> r@ == self@,
            manga_order_direction(params) matches Some(d) ==> stably_sorted(
                self@,
                manga_keys(self@, params),
                d,
                r@,
            ),
    {
        let descending = match params {
            MangaSortOrder::CreatedAt(d) => d == OrderDirection::Descending,
            MangaSortOrder::Title(d) => d == OrderDirection::Descending,
            MangaSortOrder::UpdatedAt(d) => d == OrderDirection::Descending,
            MangaSortOrder::Year(d) => d == OrderDirection::Descending,
            _ => {
                return self;
            },
        };
        let keys = manga_keys_of(&self, params);
        let ghost items = self@;
        let r = sort_by_keys(self, &keys, descending);
        assert(stably_sorted(items, manga_keys(items, params), descending, r@));
        r
    }
}

impl IntoSorted<ChapterSortOrder> for Vec<ChapterEntry> {
    type Item = ChapterEntry;

    /// The chapters stably sorted by the date of the order.
    fn to_sorted(self, params: ChapterSortOrder) -> (r: Vec<ChapterEntry>)
        ensures
            stably_sorted(
                self@,
                chapter_keys(self@, params),
                chapter_order_direction(params),
                r@,
            ),
    {
        let descending = match params {
            ChapterSortOrder::CreatedAt(d) => d == OrderDirection::Descending,
            ChapterSortOrder::PublishAt(d) => d == OrderDirection::Descending,
            ChapterSortOrder::ReadableAt(d) => d == OrderDirection::Descending,
            ChapterSortOrder::UpdatedAt(d) => d == OrderDirection::Descending,
        };
        let keys = chapter_keys_of(&self, params);
        let ghost items = self@;
        let r = sort_by_keys(self, &keys, descending);
        assert(stably_sorted(items, chapter_keys(items, params), descending, r@));
        r
    }
}

} // verus!
