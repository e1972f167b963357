use std::collections::HashMap;

use eureka_mmanager::archive::{same_path_exec, EntryKind, EntryRegexes};
use eureka_mmanager::contents::{PChapterObject, PMangaObject};
use eureka_mmanager::contents::{PackageContents, PackageContentsOptions};
use eureka_mmanager::dirs::DirsOptions;
use eureka_mmanager::model::Mode;

const ID: &str = "c666a8b5-8012-41c9-bcb2-393d8f7a1c9c";

#[test]
fn default_layout_entries_are_told_apart() {
    let r = EntryRegexes::new(&PackageContents::new()).unwrap();
    assert!(matches!(r.entry_kind(&format!("mangas/{ID}.cbor")), EntryKind::Manga));
    assert!(matches!(r.entry_kind(&format!("chapters/{ID}/data.cbor")), EntryKind::Chapter));
    assert!(matches!(r.entry_kind(&format!("covers/{ID}.cbor")), EntryKind::Cover));
    match r.entry_kind(&format!("chapters/{ID}/data-saver/3.png")) {
        EntryKind::ChapterImage { id, filename, mode } => {
            assert_eq!(id, uuid::Uuid::parse_str(ID).unwrap().as_u128());
            assert_eq!(filename, "3.png");
            assert_eq!(mode, Mode::DataSaver);
        }
        other => panic!("unexpected {:?}", other),
    }
    match r.entry_kind(&format!("chapters/{ID}/data/1.png")) {
        EntryKind::ChapterImage { mode, .. } => assert_eq!(mode, Mode::Data),
        other => panic!("unexpected {:?}", other),
    }
    match r.entry_kind("covers/images/front.jpg") {
        EntryKind::CoverImage { filename } => assert_eq!(filename, "front.jpg"),
        other => panic!("unexpected {:?}", other),
    }
    assert!(matches!(r.entry_kind("contents.cbor"), EntryKind::Any));
}

#[test]
fn recorded_layout_is_used() {
    let mut contents = PackageContents::new();
    contents.options = Some(PackageContentsOptions::from_dirs(DirsOptions::new_from_data_dir("pkg")));
    let r = EntryRegexes::new(&contents).unwrap();
    assert!(matches!(r.entry_kind(&format!("pkg/mangas/{ID}.cbor")), EntryKind::Manga));
    assert!(matches!(r.entry_kind(&format!("mangas/{ID}.cbor")), EntryKind::Any));
}

fn package_with_one_of_each() -> PackageContents {
    let mut chapters = HashMap::new();
    chapters.insert(7u128, PChapterObject { data: vec!["1.png".to_string()], data_saver: vec![] });
    let mut contents = PackageContents::new();
    contents.data.insert(1u128, PMangaObject { covers: vec![50], chapters });
    contents
}

#[test]
fn entry_paths_follow_the_layout() {
    let c = package_with_one_of_each();
    let m = uuid::Uuid::from_u128(1).to_string();
    let cv = uuid::Uuid::from_u128(50).to_string();
    let ch = uuid::Uuid::from_u128(7).to_string();
    assert_eq!(c.manga_entry_path(1), format!("mangas/{m}.cbor"));
    assert_eq!(c.cover_entry_path(50), format!("covers/{cv}.cbor"));
    assert_eq!(c.chapter_entry_path(7), format!("chapters/{ch}/data.cbor"));
    assert_eq!(c.layout().mangas, "mangas");
}

#[test]
fn package_entries_are_recognised() {
    let c = package_with_one_of_each();
    let m = uuid::Uuid::from_u128(1).to_string();
    let cv = uuid::Uuid::from_u128(50).to_string();
    let ch = uuid::Uuid::from_u128(7).to_string();
    assert!(c.is_manga_entry(&format!("mangas/{m}.cbor")));
    assert!(c.is_manga_entry(&format!("./mangas//{m}.cbor")) == false);
    assert!(c.is_manga_entry(&format!("mangas//{m}.cbor")));
    assert!(!c.is_manga_entry(&format!("mangas/{cv}.cbor")));
    assert!(c.is_cover_entry(&format!("covers/{cv}.cbor")));
    assert!(!c.is_cover_entry(&format!("covers/{m}.cbor")));
    assert!(c.is_chapter_entry(&format!("chapters/{ch}/data.cbor")));
    assert!(!c.is_chapter_entry(&format!("chapters/{m}/data.cbor")));
}

#[test]
fn same_path_compares_components() {
    assert!(same_path_exec("a/b", "a//b/"));
    assert!(same_path_exec("a/./b", "a/b"));
    assert!(!same_path_exec("./a", "a"));
    assert!(!same_path_exec("/a", "a"));
}
