use std::collections::HashMap;

use eureka_mmanager::builder::{
    can_pick_cover, Builder, RemoveChapterError, RemoveCoverError, RemoveMangaError, TarHeaderMode,
};
use eureka_mmanager::contents::{PChapterObject, PMangaObject, PackageContents};
use eureka_mmanager::dirs::DirsOptions;
use eureka_mmanager::error::ManagerError;
use eureka_mmanager::images::ChapterImagesData;
use eureka_mmanager::model::{
    ChapterEntry, CoverEntry, MangaEntry, MangaStatus, Mode, Relationship, RelationshipType,
};

fn rel(id: u128, type_: RelationshipType) -> Relationship<()> {
    Relationship { id, type_, attributes: None, payload: () }
}

fn manga(id: u128, cover: Option<u128>) -> MangaEntry {
    MangaEntry {
        id,
        relationships: cover.map(|c| vec![rel(c, RelationshipType::CoverArt)]).unwrap_or_default(),
        titles: vec![],
        alt_titles: vec![],
        original_language: "en".to_string(),
        publication_demographic: None,
        status: MangaStatus::Ongoing,
        year: None,
        content_rating: None,
        tags: vec![],
        created_at: 0,
        updated_at: None,
    }
}

fn cover(id: u128, manga: u128, with_user_and_locale: bool) -> CoverEntry {
    let mut relationships = vec![rel(manga, RelationshipType::Manga)];
    if with_user_and_locale {
        relationships.push(rel(77, RelationshipType::User));
    }
    CoverEntry {
        id,
        relationships,
        locale: if with_user_and_locale { Some("en".to_string()) } else { None },
        file_name: format!("{id}.png"),
    }
}

fn chapter(id: u128, manga: Option<u128>) -> ChapterEntry {
    ChapterEntry {
        id,
        relationships: manga.map(|m| vec![rel(m, RelationshipType::Manga)]).unwrap_or_default(),
        created_at: 0,
        updated_at: None,
        publish_at: None,
        readable_at: None,
    }
}

fn images(data: &[&str], saver: &[&str]) -> ChapterImagesData {
    ChapterImagesData {
        data: data.iter().map(|s| s.to_string()).collect(),
        data_saver: saver.iter().map(|s| s.to_string()).collect(),
    }
}

fn builder() -> Builder {
    Builder::new(DirsOptions::new_from_data_dir("data"))
}

#[test]
fn new_builder_is_empty() {
    let b = builder();
    assert!(b.get_package_contents().data.is_empty());
    assert!(b.get_package_contents().options.is_none());
    assert_eq!(b.get_compression_level(), 0);
    assert!(!b.compresses_image_to_jpeg());
    assert_eq!(b.header_mode(), TarHeaderMode::Complete);
    assert_eq!(b.initial_dir_options().data_dir, "data");
    let d = Builder::default();
    assert_eq!(d.initial_dir_options().covers, "covers");
}

#[test]
fn settings_are_recorded() {
    let mut b = builder().set_compress_image_to_jpeg(true).set_tar_header_mode(TarHeaderMode::Deterministic);
    b.set_compression_level(19);
    assert!(b.compresses_image_to_jpeg());
    assert_eq!(b.header_mode(), TarHeaderMode::Deterministic);
    assert_eq!(b.get_compression_level(), 19);
    b.zstd_compressed_images(true);
    let o = b.get_package_contents().options.as_ref().unwrap();
    assert!(o.zstd_compressed_images);
    assert!(!o.zstd_compressed_metadata);
    b.zstd_compressed_metadata(true);
    let o = b.get_package_contents().options.as_ref().unwrap();
    assert!(o.zstd_compressed_images);
    assert!(o.zstd_compressed_metadata);
}

#[test]
fn add_cover_needs_manga_relationship_and_is_idempotent() {
    let mut b = builder();
    let m = manga(1, Some(50));
    let orphan = CoverEntry { id: 9, relationships: vec![], locale: None, file_name: String::new() };
    match b.add_cover(&orphan, &m) {
        Err(ManagerError::MissingRelationships(k)) => assert_eq!(k, vec![RelationshipType::Manga]),
        other => panic!("unexpected {:?}", other),
    }
    assert!(b.get_package_contents().data.is_empty());
    b.add_cover(&cover(50, 1, false), &m).unwrap();
    b.add_cover(&cover(50, 1, false), &m).unwrap();
    b.add_cover(&cover(51, 1, false), &m).unwrap();
    assert_eq!(b.get_package_contents().data[&1].covers, vec![50, 51]);
}

#[test]
fn add_manga_takes_named_cover_when_listed() {
    let mut b = builder();
    let covers = vec![cover(50, 1, false), cover(60, 1, true)];
    b.add_manga_by_draw(&manga(1, Some(50)), covers, 123).unwrap();
    assert_eq!(b.get_package_contents().data[&1].covers, vec![50]);
}

#[test]
fn add_manga_draws_among_covers_of_the_manga() {
    let mut b = builder();
    let covers = vec![cover(60, 1, true), cover(61, 2, true), cover(62, 1, false), cover(63, 1, true)];
    b.add_manga_by_draw(&manga(1, Some(50)), covers, 3).unwrap();
    assert_eq!(b.get_package_contents().data[&1].covers, vec![63]);
    let covers = vec![cover(60, 1, true), cover(63, 1, true)];
    b.add_manga_by_draw(&manga(1, Some(50)), covers, 4).unwrap();
    assert_eq!(b.get_package_contents().data[&1].covers, vec![63, 60]);
    let covers = vec![cover(60, 1, true), cover(63, 1, true)];
    b.add_manga(&manga(1, Some(50)), covers).unwrap();
    let all = &b.get_package_contents().data[&1].covers;
    assert_eq!(all.len(), 3);
    assert!(all[2] == 60 || all[2] == 63);
}

#[test]
fn add_manga_without_cover_relationship_fails() {
    let mut b = builder();
    match b.add_manga_by_draw(&manga(1, None), vec![], 0) {
        Err(ManagerError::MissingRelationships(k)) => assert_eq!(k, vec![RelationshipType::CoverArt]),
        other => panic!("unexpected {:?}", other),
    }
}

#[test]
fn add_chapter_creates_manga_with_named_cover() {
    let mut b = builder();
    let m = manga(1, Some(50));
    b.add_chapter(&chapter(7, Some(1)), images(&["1.png"], &["1s.png"]), &m, Mode::Data).unwrap();
    let entry = &b.get_package_contents().data[&1];
    assert_eq!(entry.covers, vec![50]);
    assert_eq!(entry.chapters[&7].data, vec!["1.png".to_string()]);
    assert!(entry.chapters[&7].data_saver.is_empty());
    b.add_chapter(&chapter(7, Some(1)), images(&["2.png"], &["2s.png"]), &m, Mode::DataSaver).unwrap();
    let entry = &b.get_package_contents().data[&1];
    assert_eq!(entry.chapters[&7].data, vec!["1.png".to_string()]);
    assert_eq!(entry.chapters[&7].data_saver, vec!["2s.png".to_string()]);
}

#[test]
fn add_chapter_errors() {
    let mut b = builder();
    match b.add_chapter(&chapter(7, None), images(&[], &[]), &manga(1, Some(50)), Mode::Data) {
        Err(ManagerError::MissingRelationships(k)) => assert_eq!(k, vec![RelationshipType::Manga]),
        other => panic!("unexpected {:?}", other),
    }
    b.add_cover(&cover(50, 1, false), &manga(1, Some(50))).unwrap();
    match b.add_chapter(&chapter(7, Some(1)), images(&[], &[]), &manga(1, None), Mode::Data) {
        Err(ManagerError::MissingRelationships(k)) => assert_eq!(k, vec![RelationshipType::CoverArt]),
        other => panic!("unexpected {:?}", other),
    }
    assert!(b.get_package_contents().data[&1].chapters.is_empty());
}

fn package() -> PackageContents {
    let mut data = HashMap::new();
    let mut chapters = HashMap::new();
    chapters.insert(7, PChapterObject { data: vec!["a".to_string()], data_saver: vec!["b".to_string()] });
    chapters.insert(8, PChapterObject { data: vec![], data_saver: vec!["c".to_string()] });
    data.insert(1, PMangaObject { covers: vec![50, 51], chapters });
    let mut single = HashMap::new();
    single.insert(9, PChapterObject { data: vec!["x".to_string()], data_saver: vec!["y".to_string()] });
    data.insert(2, PMangaObject { covers: vec![60], chapters: single });
    PackageContents { options: None, data }
}

#[test]
fn remove_manga_reports_missing() {
    let mut b = builder().set_content(package());
    assert_eq!(b.remove_manga(3), Err(RemoveMangaError::NotFound(3)));
    assert_eq!(b.remove_manga(2), Ok(()));
    assert!(!b.get_package_contents().data.contains_key(&2));
}

#[test]
fn remove_cover_rules() {
    let mut b = builder().set_content(package());
    assert_eq!(b.remove_cover(99), Err(RemoveCoverError::NotFound(99)));
    assert_eq!(b.remove_cover(60), Err(RemoveCoverError::RemoveMangaInstead));
    assert_eq!(b.remove_cover(50), Ok(()));
    assert_eq!(b.get_package_contents().data[&1].covers, vec![51]);
    assert_eq!(b.remove_cover(51), Err(RemoveCoverError::CannotBeSingle));
}

#[test]
fn remove_chapter_rules() {
    let mut b = builder().set_content(package());
    assert_eq!(b.remove_chapter(99), Err(RemoveChapterError::NotFound(99)));
    assert_eq!(b.remove_chapter(9), Err(RemoveChapterError::RemoveMangaInstead));
    assert_eq!(b.remove_chapter(8), Ok(()));
    assert!(!b.get_package_contents().data[&1].chapters.contains_key(&8));
}

#[test]
fn clear_chapter_images_rules() {
    let mut b = builder().set_content(package());
    assert_eq!(b.clear_chapter_images(99, Mode::Data), Err(RemoveChapterError::NotFound(99)));
    assert_eq!(b.clear_chapter_images(9, Mode::Data), Err(RemoveChapterError::RemoveMangaInstead));
    assert_eq!(b.clear_chapter_images(8, Mode::Data), Err(RemoveChapterError::RemoveChapterInstead));
    assert_eq!(b.clear_chapter_images(7, Mode::DataSaver), Ok(()));
    let c = &b.get_package_contents().data[&1].chapters[&7];
    assert_eq!(c.data, vec!["a".to_string()]);
    assert!(c.data_saver.is_empty());
}

#[test]
fn files_to_use_cover_all_parts() {
    let mut data = HashMap::new();
    let mut chapters = HashMap::new();
    chapters.insert(7u128, PChapterObject { data: vec!["1.png".to_string()], data_saver: vec!["1s.png".to_string()] });
    data.insert(1u128, PMangaObject { covers: vec![50, 51], chapters });
    let b = builder().set_content(PackageContents { options: None, data });
    let mut names = HashMap::new();
    names.insert(50u128, "front.jpg".to_string());
    let paths = b.get_to_use_paths(&names);
    let m = uuid::Uuid::from_u128(1).to_string();
    let c50 = uuid::Uuid::from_u128(50).to_string();
    let c51 = uuid::Uuid::from_u128(51).to_string();
    let ch = uuid::Uuid::from_u128(7).to_string();
    assert_eq!(
        paths,
        vec![
            format!("data/mangas/{m}.json"),
            format!("data/covers/{c50}.json"),
            "data/covers/images/front.jpg".to_string(),
            format!("data/covers/{c51}.json"),
            format!("data/chapters/{ch}/data.json"),
            format!("data/chapters/{ch}/data/1.png"),
            format!("data/chapters/{ch}/data-saver/1s.png"),
        ]
    );
}

#[test]
fn cover_can_be_picked_when_named_or_of_the_manga() {
    assert!(can_pick_cover(&manga(1, None), &vec![]));
    assert!(!can_pick_cover(&manga(1, Some(50)), &vec![]));
    assert!(can_pick_cover(&manga(1, Some(50)), &vec![cover(50, 2, false)]));
    assert!(can_pick_cover(&manga(1, Some(50)), &vec![cover(60, 1, true)]));
    assert!(!can_pick_cover(&manga(1, Some(50)), &vec![cover(60, 1, false), cover(61, 2, true)]));
}
