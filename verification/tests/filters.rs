use eureka_mmanager::filters::{
    filter_items, CoverListDataPullFilterParams, IntoFiltered, MangaListDataPullFilterParams,
    Validate,
};
use eureka_mmanager::model::{
    ContentRating, CoverEntry, Demographic, MangaEntry, MangaStatus, Relationship,
    RelationshipType, TagSearchMode,
};

fn rel(id: u128, type_: RelationshipType) -> Relationship<()> {
    Relationship { id, type_, attributes: None, payload: () }
}

fn cover(id: u128, manga: Option<u128>, user: Option<u128>, locale: Option<&str>) -> CoverEntry {
    let mut relationships = vec![];
    if let Some(m) = manga {
        relationships.push(rel(m, RelationshipType::Manga));
    }
    if let Some(u) = user {
        relationships.push(rel(u, RelationshipType::User));
    }
    CoverEntry {
        id,
        relationships,
        locale: locale.map(|l| l.to_string()),
        file_name: format!("{id}.jpg"),
    }
}

fn manga() -> MangaEntry {
    MangaEntry {
        id: 1,
        relationships: vec![rel(10, RelationshipType::Author), rel(11, RelationshipType::Artist)],
        titles: vec!["Mugi Kaoru Futari".to_string()],
        alt_titles: vec![vec!["Bread".to_string()]],
        original_language: "ja".to_string(),
        publication_demographic: Some(Demographic::Shounen),
        status: MangaStatus::Completed,
        year: Some(2025),
        content_rating: Some(ContentRating::Safe),
        tags: vec![100, 101, 102],
        created_at: 1_000,
        updated_at: Some(2_000),
    }
}

#[test]
fn empty_cover_params_need_manga_user_and_locale() {
    let p = CoverListDataPullFilterParams::default();
    assert!(p.is_valid(&cover(1, Some(5), Some(6), Some("en"))));
    assert!(!p.is_valid(&cover(1, None, Some(6), Some("en"))));
    assert!(!p.is_valid(&cover(1, Some(5), None, Some("en"))));
    assert!(!p.is_valid(&cover(1, Some(5), Some(6), None)));
}

#[test]
fn cover_params_match_lists() {
    let p = CoverListDataPullFilterParams {
        manga_ids: vec![5],
        uploader_ids: vec![6, 7],
        locales: vec!["en".to_string(), "fr".to_string()],
    };
    assert!(p.is_valid(&cover(1, Some(5), Some(7), Some("fr"))));
    assert!(!p.is_valid(&cover(1, Some(4), Some(7), Some("fr"))));
    assert!(!p.is_valid(&cover(1, Some(5), Some(8), Some("fr"))));
    assert!(!p.is_valid(&cover(1, Some(5), Some(7), Some("ja"))));
}

#[test]
fn filtering_keeps_accepted_in_order() {
    let covers = vec![
        cover(1, Some(5), Some(6), Some("en")),
        cover(2, Some(4), Some(6), Some("en")),
        cover(3, Some(5), Some(6), Some("en")),
        cover(4, Some(5), None, Some("en")),
    ];
    let p = CoverListDataPullFilterParams { manga_ids: vec![5], uploader_ids: vec![], locales: vec![] };
    let kept = covers.to_filtered(p);
    assert_eq!(kept.iter().map(|c| c.id).collect::<Vec<_>>(), vec![1, 3]);
}

#[test]
fn filtering_twice_keeps_the_same() {
    let covers = vec![
        cover(1, Some(5), Some(6), Some("en")),
        cover(2, Some(4), Some(6), Some("en")),
        cover(3, Some(5), Some(6), None),
    ];
    let p = CoverListDataPullFilterParams::default();
    let once = filter_items(covers, &p);
    let once_ids: Vec<u128> = once.iter().map(|c| c.id).collect();
    let twice = filter_items(once, &p);
    assert_eq!(twice.iter().map(|c| c.id).collect::<Vec<_>>(), once_ids);
    assert_eq!(once_ids, vec![1, 2]);
}

#[test]
fn empty_manga_params_accept_everything() {
    let p = MangaListDataPullFilterParams::default();
    assert!(p.is_valid(&manga()));
    let mut bare = manga();
    bare.relationships = vec![];
    bare.publication_demographic = None;
    bare.content_rating = None;
    bare.year = None;
    bare.updated_at = None;
    assert!(p.is_valid(&bare));
}

#[test]
fn title_pattern_matches_titles_and_alt_titles() {
    let mut p = MangaListDataPullFilterParams::default();
    p.title = Some("Kaoru".to_string());
    assert!(p.is_valid(&manga()));
    p.title = Some("^Bre".to_string());
    assert!(p.is_valid(&manga()));
    p.title = Some("Sandwich".to_string());
    assert!(!p.is_valid(&manga()));
    p.title = Some("(unclosed".to_string());
    assert!(p.is_valid(&manga()));
}

#[test]
fn author_or_artist_matches_either() {
    let mut p = MangaListDataPullFilterParams::default();
    p.author_or_artist = Some(11);
    assert!(p.is_valid(&manga()));
    p.author_or_artist = Some(10);
    assert!(p.is_valid(&manga()));
    p.author_or_artist = Some(12);
    assert!(!p.is_valid(&manga()));
}

#[test]
fn author_and_artist_lists_never_refuse() {
    let mut p = MangaListDataPullFilterParams::default();
    p.authors = vec![99];
    p.artists = vec![98];
    assert!(p.is_valid(&manga()));
}

#[test]
fn year_compares_when_both_known() {
    let mut p = MangaListDataPullFilterParams::default();
    p.year = Some(2024);
    assert!(!p.is_valid(&manga()));
    p.year = Some(2025);
    assert!(p.is_valid(&manga()));
    let mut m = manga();
    m.year = None;
    p.year = Some(2024);
    assert!(p.is_valid(&m));
}

#[test]
fn included_tags_modes() {
    let mut p = MangaListDataPullFilterParams::default();
    p.included_tags = vec![200];
    assert!(p.is_valid(&manga()));
    p.included_tags_mode = Some(TagSearchMode::Or);
    assert!(!p.is_valid(&manga()));
    p.included_tags = vec![200, 101];
    assert!(p.is_valid(&manga()));
}

#[test]
fn excluded_tags_modes() {
    let mut p = MangaListDataPullFilterParams::default();
    p.excluded_tags = vec![200];
    assert!(p.is_valid(&manga()));
    p.excluded_tags = vec![200, 100];
    assert!(!p.is_valid(&manga()));
    p.excluded_tags_mode = Some(TagSearchMode::And);
    p.excluded_tags = vec![300];
    assert!(!p.is_valid(&manga()));
}

#[test]
fn status_language_and_demographic() {
    let mut p = MangaListDataPullFilterParams::default();
    p.status = vec![MangaStatus::Ongoing];
    assert!(!p.is_valid(&manga()));
    p.status = vec![MangaStatus::Ongoing, MangaStatus::Completed];
    assert!(p.is_valid(&manga()));

    let mut q = MangaListDataPullFilterParams::default();
    q.original_language = vec!["ko".to_string()];
    assert!(!q.is_valid(&manga()));
    q.original_language = vec!["ja".to_string()];
    assert!(q.is_valid(&manga()));

    let mut e = MangaListDataPullFilterParams::default();
    e.excluded_original_language = vec!["ja".to_string()];
    assert!(e.is_valid(&manga()));
    e.excluded_original_language = vec!["ko".to_string()];
    assert!(!e.is_valid(&manga()));

    let mut d = MangaListDataPullFilterParams::default();
    d.publication_demographic = vec![Demographic::Seinen];
    assert!(!d.is_valid(&manga()));
    d.publication_demographic = vec![Demographic::Shounen];
    assert!(d.is_valid(&manga()));
    let mut m = manga();
    m.publication_demographic = None;
    assert!(!d.is_valid(&m));
}

#[test]
fn content_rating_and_dates() {
    let mut p = MangaListDataPullFilterParams::default();
    p.content_rating = vec![ContentRating::Erotica];
    assert!(!p.is_valid(&manga()));
    let mut m = manga();
    m.content_rating = None;
    assert!(p.is_valid(&m));

    let mut c = MangaListDataPullFilterParams::default();
    c.created_at_since = Some(999);
    assert!(c.is_valid(&manga()));
    c.created_at_since = Some(1_000);
    assert!(!c.is_valid(&manga()));

    let mut u = MangaListDataPullFilterParams::default();
    u.updated_at_since = Some(2_000);
    assert!(!u.is_valid(&manga()));
    u.updated_at_since = Some(1_999);
    assert!(u.is_valid(&manga()));
    let mut n = manga();
    n.updated_at = None;
    u.updated_at_since = Some(5_000);
    assert!(u.is_valid(&n));
}

#[test]
fn manga_criteria_combine_by_and() {
    let m = manga();
    let year_only = MangaListDataPullFilterParams { year: Some(2025), ..Default::default() };
    let status_only = MangaListDataPullFilterParams {
        status: vec![MangaStatus::Ongoing],
        ..Default::default()
    };
    let both = MangaListDataPullFilterParams {
        year: Some(2025),
        status: vec![MangaStatus::Ongoing],
        ..Default::default()
    };
    assert!(year_only.is_valid(&m));
    assert!(!status_only.is_valid(&m));
    assert!(!both.is_valid(&m));
    let both_pass = MangaListDataPullFilterParams {
        year: Some(2025),
        status: vec![MangaStatus::Completed],
        ..Default::default()
    };
    assert!(both_pass.is_valid(&m));
}
