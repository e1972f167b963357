use eureka_mmanager::images::{parse_usize, sort_image_names, ChapterImagesData};
use eureka_mmanager::contents::PChapterObject;
use eureka_mmanager::model::{ChapterEntry, MangaEntry, MangaStatus, OrderDirection};
use eureka_mmanager::orders::{ChapterSortOrder, IntoSorted, MangaSortOrder};
use eureka_mmanager::random::{pick_by_draw, Rand};
use eureka_mmanager::sort::{sort_by_keys, text_le_exec, texts_le_exec, SortKey};

fn manga(id: u128, created_at: i128, titles: &[&str], year: Option<u16>, updated_at: Option<i128>) -> MangaEntry {
    MangaEntry {
        id,
        relationships: vec![],
        titles: titles.iter().map(|t| t.to_string()).collect(),
        alt_titles: vec![],
        original_language: "en".to_string(),
        publication_demographic: None,
        status: MangaStatus::Ongoing,
        year,
        content_rating: None,
        tags: vec![],
        created_at,
        updated_at,
    }
}

fn ids(v: &[MangaEntry]) -> Vec<u128> {
    v.iter().map(|m| m.id).collect()
}

fn list() -> Vec<MangaEntry> {
    vec![
        manga(1, 30, &["Beta"], Some(2001), Some(5)),
        manga(2, 10, &["Alpha", "Zeta"], None, None),
        manga(3, 30, &["Alpha"], Some(1999), Some(1)),
        manga(4, 20, &["alpha"], Some(2001), None),
    ]
}

#[test]
fn mangas_by_creation_date_are_stable() {
    let up = list().to_sorted(MangaSortOrder::CreatedAt(OrderDirection::Ascending));
    assert_eq!(ids(&up), vec![2, 4, 1, 3]);
    let down = list().to_sorted(MangaSortOrder::CreatedAt(OrderDirection::Descending));
    assert_eq!(ids(&down), vec![1, 3, 4, 2]);
}

#[test]
fn mangas_by_title_compare_lists_of_titles() {
    let up = list().to_sorted(MangaSortOrder::Title(OrderDirection::Ascending));
    assert_eq!(ids(&up), vec![3, 2, 1, 4]);
}

#[test]
fn mangas_by_year_put_missing_first() {
    let up = list().to_sorted(MangaSortOrder::Year(OrderDirection::Ascending));
    assert_eq!(ids(&up), vec![2, 3, 1, 4]);
    let down = list().to_sorted(MangaSortOrder::Year(OrderDirection::Descending));
    assert_eq!(ids(&down), vec![1, 4, 3, 2]);
}

#[test]
fn mangas_by_update_date() {
    let up = list().to_sorted(MangaSortOrder::UpdatedAt(OrderDirection::Ascending));
    assert_eq!(ids(&up), vec![2, 4, 3, 1]);
}

#[test]
fn orders_without_a_key_keep_the_list() {
    for order in [
        MangaSortOrder::FollowedCount(OrderDirection::Ascending),
        MangaSortOrder::Relevance(OrderDirection::Descending),
        MangaSortOrder::Rating(OrderDirection::Ascending),
        MangaSortOrder::LatestUploadedChapter(OrderDirection::Ascending),
    ] {
        assert_eq!(ids(&list().to_sorted(order)), vec![1, 2, 3, 4]);
    }
}

#[test]
fn sorting_a_sorted_list_changes_nothing() {
    let once = list().to_sorted(MangaSortOrder::CreatedAt(OrderDirection::Descending));
    let once_ids = ids(&once);
    let twice = once.to_sorted(MangaSortOrder::CreatedAt(OrderDirection::Descending));
    assert_eq!(ids(&twice), once_ids);
}

fn chapter(id: u128, created_at: i128, publish_at: Option<i128>) -> ChapterEntry {
    ChapterEntry { id, relationships: vec![], created_at, updated_at: None, publish_at, readable_at: None }
}

#[test]
fn chapters_by_dates() {
    let v = vec![chapter(1, 5, Some(3)), chapter(2, 1, None), chapter(3, 5, Some(1))];
    let by_created: Vec<u128> = v.to_sorted(ChapterSortOrder::CreatedAt(OrderDirection::Ascending)).iter().map(|c| c.id).collect();
    assert_eq!(by_created, vec![2, 1, 3]);
    let v = vec![chapter(1, 5, Some(3)), chapter(2, 1, None), chapter(3, 5, Some(1))];
    let by_publish: Vec<u128> = v.to_sorted(ChapterSortOrder::PublishAt(OrderDirection::Descending)).iter().map(|c| c.id).collect();
    assert_eq!(by_publish, vec![1, 3, 2]);
}

#[test]
fn text_order_is_by_code_point() {
    assert!(text_le_exec("Alpha", "Beta"));
    assert!(text_le_exec("Al", "Alpha"));
    assert!(!text_le_exec("alpha", "Beta"));
    assert!(text_le_exec("", ""));
    assert!(texts_le_exec(&vec!["A".to_string()], &vec!["A".to_string(), "B".to_string()]));
    assert!(!texts_le_exec(&vec!["B".to_string()], &vec!["A".to_string(), "B".to_string()]));
}

#[test]
fn sort_by_keys_keeps_ties_in_order() {
    let items = vec!['a', 'b', 'c', 'd'];
    let keys = vec![SortKey::Int(2), SortKey::Int(1), SortKey::Int(2), SortKey::Int(1)];
    assert_eq!(sort_by_keys(items.clone(), &keys, false), vec!['b', 'd', 'a', 'c']);
    assert_eq!(sort_by_keys(items, &keys, true), vec!['a', 'c', 'b', 'd']);
}

#[test]
fn parse_usize_reads_as_from_str() {
    assert_eq!(parse_usize("42"), Some(42));
    assert_eq!(parse_usize("+7"), Some(7));
    assert_eq!(parse_usize("007"), Some(7));
    assert_eq!(parse_usize(""), None);
    assert_eq!(parse_usize("+"), None);
    assert_eq!(parse_usize("4a"), None);
    assert_eq!(parse_usize("-1"), None);
    assert_eq!(parse_usize("18446744073709551615"), Some(usize::MAX));
    assert_eq!(parse_usize("18446744073709551616"), None);
    assert_eq!(parse_usize("99999999999999999999999"), None);
    assert_eq!("18446744073709551615".parse::<usize>().ok(), parse_usize("18446744073709551615"));
}

#[test]
fn image_names_follow_their_first_number() {
    let names: Vec<String> = ["10.png", "2.png", "cover.png", "1-3.jpg", "x01.png"]
        .iter()
        .map(|s| s.to_string())
        .collect();
    let sorted = sort_image_names(names).unwrap();
    assert_eq!(sorted, vec!["cover.png", "1-3.jpg", "x01.png", "2.png", "10.png"]);
}

#[test]
fn images_data_conversions() {
    let d = ChapterImagesData { data: vec!["a".to_string()], data_saver: vec![] };
    assert!(!d.is_empty());
    assert!(ChapterImagesData::default().is_empty());
    let p: PChapterObject = d.into();
    assert_eq!(p.data, vec!["a".to_string()]);
    let back: ChapterImagesData = p.into();
    assert_eq!(back.data, vec!["a".to_string()]);
}

#[test]
fn draws_pick_by_remainder() {
    assert_eq!(pick_by_draw(vec![10, 20, 30], 7), 20);
    assert_eq!(pick_by_draw(vec![10, 20, 30], 0), 10);
    let v = vec![1, 2, 3];
    let x = v.clone().random().unwrap();
    assert!(v.contains(&x));
}
