use std::collections::HashMap;

use eureka_mmanager::contents::{
    collect_keys, dedup_ids, PChapterObject, PMangaObject, PackageContents, PackageContentsOptions,
};
use eureka_mmanager::dirs::DirsOptions;
use eureka_mmanager::images::ChapterImagesData;
use eureka_mmanager::model::{ChapterEntry, CoverEntry, MangaEntry, MangaStatus, Relationship, RelationshipType};

fn rel(id: u128, type_: RelationshipType) -> Relationship<()> {
    Relationship { id, type_, attributes: None, payload: () }
}

fn one(covers: Vec<u128>, chapter: Option<(u128, &str)>) -> PMangaObject {
    let mut chapters = HashMap::new();
    if let Some((id, file)) = chapter {
        chapters.insert(id, PChapterObject { data: vec![file.to_string()], data_saver: vec![] });
    }
    PMangaObject { covers, chapters }
}

#[test]
fn dedup_removes_adjacent_repeats_only() {
    assert_eq!(dedup_ids(&vec![1, 1, 2, 1, 1, 3]), vec![1, 2, 1, 3]);
    assert_eq!(dedup_ids(&vec![]), Vec::<u128>::new());
}

#[test]
fn merging_appends_covers_and_overrides_chapters() {
    let mut lhs = PackageContents::new();
    lhs.data.insert(1, one(vec![10, 11], Some((100, "old"))));
    lhs.data.insert(2, one(vec![20], None));
    let mut rhs = PackageContents::new();
    rhs.data.insert(1, one(vec![11, 12], Some((100, "new"))));
    rhs.data.insert(3, one(vec![30], None));
    let r = lhs.add(rhs);
    assert_eq!(r.data[&1].covers, vec![10, 11, 12]);
    assert_eq!(r.data[&1].chapters[&100].data, vec!["new".to_string()]);
    assert_eq!(r.data[&2].covers, vec![20]);
    assert_eq!(r.data[&3].covers, vec![30]);
    assert_eq!(r.data.len(), 3);
}

#[test]
fn merging_an_empty_package_changes_nothing() {
    let mut lhs = PackageContents::new();
    lhs.data.insert(1, one(vec![10, 10, 11], Some((100, "a"))));
    let mut merged = PackageContents::new();
    merged.data.insert(1, one(vec![10, 10, 11], Some((100, "a"))));
    merged.add_assign(PackageContents::default());
    assert_eq!(merged.data[&1].covers, lhs.data[&1].covers);
    assert_eq!(merged.data[&1].chapters[&100].data, vec!["a".to_string()]);
}

#[test]
fn options_default_and_dirs() {
    let o = PackageContents::new().get_options();
    assert!(o.directories.is_none());
    assert!(!o.zstd_compressed_images && !o.zstd_compressed_metadata);
    assert_eq!(o.get_dirs().covers, "covers");
    let with = PackageContentsOptions::from_dirs(DirsOptions::new_from_data_dir("d"));
    assert_eq!(with.get_dirs().covers, "d/covers");
}

#[test]
fn keys_are_listed_once() {
    let mut m: HashMap<u128, u8> = HashMap::new();
    m.insert(5, 0);
    m.insert(7, 1);
    let mut keys = collect_keys(&m);
    keys.sort();
    assert_eq!(keys, vec![5, 7]);
}

fn manga(id: u128) -> MangaEntry {
    MangaEntry {
        id,
        relationships: vec![],
        titles: vec![],
        alt_titles: vec![],
        original_language: "en".to_string(),
        publication_demographic: None,
        status: MangaStatus::Ongoing,
        year: None,
        content_rating: None,
        tags: vec![],
        created_at: 0,
        updated_at: None,
    }
}

#[test]
fn assembled_package_keeps_mangas_with_cover_and_chapter() {
    let covers = vec![
        CoverEntry { id: 10, relationships: vec![rel(1, RelationshipType::Manga)], locale: None, file_name: String::new() },
        CoverEntry { id: 20, relationships: vec![rel(2, RelationshipType::Manga)], locale: None, file_name: String::new() },
        CoverEntry { id: 11, relationships: vec![rel(1, RelationshipType::Manga)], locale: None, file_name: String::new() },
        CoverEntry { id: 99, relationships: vec![], locale: None, file_name: String::new() },
    ];
    let chapter = |id: u128, m: u128| ChapterEntry {
        id,
        relationships: vec![rel(m, RelationshipType::Manga)],
        created_at: 0,
        updated_at: None,
        publish_at: None,
        readable_at: None,
    };
    let imgs = |f: &str| ChapterImagesData { data: vec![f.to_string()], data_saver: vec![] };
    let chapters = vec![
        (chapter(100, 1), imgs("a")),
        (chapter(100, 1), imgs("b")),
        (chapter(300, 3), imgs("c")),
    ];
    let mangas = vec![manga(1), manga(2), manga(3), manga(1)];
    let p = PackageContents::from_pulled(&covers, chapters, &mangas);
    assert!(p.options.is_none());
    assert_eq!(p.data.len(), 1);
    assert_eq!(p.data[&1].covers, vec![10, 11]);
    assert_eq!(p.data[&1].chapters.len(), 1);
    assert_eq!(p.data[&1].chapters[&100].data, vec!["b".to_string()]);
}

#[test]
fn chapter_images_are_found_in_any_manga() {
    let mut p = PackageContents::new();
    p.data.insert(1, one(vec![10], Some((100, "a"))));
    p.data.insert(2, one(vec![20], Some((200, "b"))));
    assert_eq!(p.chapter_images(200).unwrap().data, vec!["b".to_string()]);
    assert!(p.chapter_images(300).is_none());
}

#[test]
fn merging_into_an_empty_package_reduces_repeated_covers() {
    let mut rhs = PackageContents::new();
    rhs.data.insert(1, one(vec![10, 10, 11, 10], Some((100, "a"))));
    let r = PackageContents::new().add(rhs);
    assert_eq!(r.data[&1].covers, vec![10, 11, 10]);
    assert_eq!(r.data[&1].chapters[&100].data, vec!["a".to_string()]);
}
