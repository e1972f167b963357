use eureka_mmanager::dirs::{DirsOptions, DirsOptionsVerificationError};
use eureka_mmanager::paths::{is_absolute, path_join, starts_with};

fn layout(data_dir: &str, chapters: &str, mangas: &str, covers: &str) -> DirsOptions {
    DirsOptions {
        data_dir: data_dir.to_string(),
        chapters: chapters.to_string(),
        mangas: mangas.to_string(),
        covers: covers.to_string(),
        init_dirs_if_not_exists: None,
    }
}

#[test]
fn new_from_data_dir_places_everything_inside() {
    let d = DirsOptions::new_from_data_dir("data");
    assert_eq!(d.data_dir, "data");
    assert_eq!(d.chapters, "data/chapters");
    assert_eq!(d.mangas, "data/mangas");
    assert_eq!(d.covers, "data/covers");
    assert_eq!(d.init_dirs_if_not_exists, Some(true));
}

#[test]
fn default_layout_is_relative() {
    let d = DirsOptions::default();
    assert_eq!(d.data_dir, "");
    assert_eq!(d.chapters, "chapters");
    assert_eq!(d.covers, "covers");
}

#[test]
fn data_dir_and_history_paths() {
    let d = DirsOptions::new_from_data_dir("/srv/data");
    assert_eq!(d.data_dir_add("x.json"), "/srv/data/x.json");
    assert_eq!(d.history_add("h.json"), "/srv/data/history/h.json");
    assert_eq!(d.history_add(""), "/srv/data/history/");
}

#[test]
fn covers_inside_data_dir_are_taken_as_they_are() {
    let d = DirsOptions::new_from_data_dir("data");
    assert_eq!(d.covers_add("c.json"), "data/covers/c.json");
    assert_eq!(d.cover_images_add("a.png"), "data/covers/images/a.png");
}

#[test]
fn relative_covers_outside_data_dir_go_inside_it() {
    let d = layout("data", "chapters", "mangas", "covers");
    assert_eq!(d.covers_add("c.json"), "data/covers/c.json");
    assert_eq!(d.mangas_add("m.json"), "data/mangas/m.json");
    assert_eq!(d.chapters_add("x"), "data/chapters/x");
}

#[test]
fn absolute_dirs_are_kept() {
    let d = layout("data", "/abs/chapters", "/abs/mangas", "/abs/covers");
    assert_eq!(d.covers_add("c.json"), "/abs/covers/c.json");
    assert_eq!(d.mangas_add("m.json"), "/abs/mangas/m.json");
    assert_eq!(d.chapters_add("x"), "/abs/chapters/x");
}

#[test]
fn chapter_dirs_use_the_hyphenated_id() {
    let d = DirsOptions::new_from_data_dir("data");
    let id = uuid::Uuid::parse_str("c666a8b5-8012-41c9-bcb2-393d8f7a1c9c").unwrap().as_u128();
    assert_eq!(d.chapters_id_add(id), "data/chapters/c666a8b5-8012-41c9-bcb2-393d8f7a1c9c");
    assert_eq!(
        d.chapters_id_data_add(id),
        "data/chapters/c666a8b5-8012-41c9-bcb2-393d8f7a1c9c/data"
    );
    assert_eq!(
        d.chapters_id_data_saver_add(id),
        "data/chapters/c666a8b5-8012-41c9-bcb2-393d8f7a1c9c/data-saver"
    );
}

#[test]
fn verification_reports_first_missing_dir() {
    let d = DirsOptions::new_from_data_dir("data");
    let paths = d.verification_paths();
    assert_eq!(
        paths,
        vec![
            "data".to_string(),
            "data/history/".to_string(),
            "data/chapters".to_string(),
            "data/covers".to_string(),
            "data/covers/images/".to_string(),
            "data/mangas".to_string()
        ]
    );
    assert_eq!(d.verify(&vec![true; 6]), Ok(()));
    let errors = [
        DirsOptionsVerificationError::DataRoot,
        DirsOptionsVerificationError::History,
        DirsOptionsVerificationError::Chapters,
        DirsOptionsVerificationError::Covers,
        DirsOptionsVerificationError::CoverImages,
        DirsOptionsVerificationError::Mangas,
    ];
    for i in 0..6 {
        let mut present = vec![true; 6];
        present[i] = false;
        assert_eq!(d.verify(&present), Err(errors[i]));
    }
    assert_eq!(d.verify(&vec![true, false, false, true, true, true]), Err(DirsOptionsVerificationError::History));
}

#[test]
fn init_needed_exactly_when_verification_fails() {
    let d = DirsOptions::new_from_data_dir("data");
    assert!(!d.verify_and_init(&vec![true; 6]));
    assert!(d.verify_and_init(&vec![true, true, true, true, true, false]));
}

#[test]
fn verification_messages() {
    assert_eq!(DirsOptionsVerificationError::DataRoot.message(), "The data dir doesn:t exist");
    assert_eq!(DirsOptionsVerificationError::Mangas.message(), "The mangas dir doesn't exist");
}

#[test]
fn path_join_follows_unix_rules() {
    assert_eq!(path_join("a", "b"), "a/b");
    assert_eq!(path_join("a/", "b"), "a/b");
    assert_eq!(path_join("", "b"), "b");
    assert_eq!(path_join("a", "/b"), "/b");
    assert_eq!(path_join("a", ""), "a/");
    assert!(is_absolute("/x"));
    assert!(!is_absolute("x"));
}

#[test]
fn starts_with_compares_components() {
    assert!(starts_with("data/covers", "data"));
    assert!(starts_with("data//covers", "data/"));
    assert!(!starts_with("./data/covers", "data"));
    assert!(!starts_with("database/covers", "data"));
    assert!(starts_with("covers", ""));
    assert!(!starts_with("/data", "data"));
}

#[test]
fn relative_paths_stay_inside_the_data_dir() {
    for data_dir in ["data", "./data/", "/srv/data", "", "."] {
        let d = DirsOptions::new_from_data_dir(data_dir);
        for p in ["x.json", "a/b/c", "", "./y", "../z"] {
            let joined = d.data_dir_add(p);
            assert!(starts_with(&joined, data_dir), "{joined} outside {data_dir}");
        }
    }
    let d = DirsOptions::new_from_data_dir("data");
    assert!(!starts_with(&d.data_dir_add("/etc/passwd"), "data"));
}
