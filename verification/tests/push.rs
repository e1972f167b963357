use eureka_mmanager::error::ManagerError;
use eureka_mmanager::model::{RelatedKind, Relationship, RelationshipType};
use eureka_mmanager::push::{
    manga_to_store, required_cover_references, seed_rel, verify_cover, MangaRequiredRelationship,
};
use eureka_mmanager::model::ReferenceExpansionResource;

fn id(text: &str) -> u128 {
    uuid::Uuid::parse_str(text).unwrap().as_u128()
}

fn rel(id: u128, type_: RelationshipType, attributes: Option<RelatedKind>) -> Relationship<u32> {
    Relationship { id, type_, attributes, payload: 0 }
}

#[test]
fn test_seed() {
    let mut input: Vec<Relationship<u32>> = vec![];
    let seed = vec![
        rel(
            id("599e8020-b43f-499d-b546-6192cc1748a4"),
            RelationshipType::ScanlationGroup,
            Some(RelatedKind::ScanlationGroup),
        ),
        rel(
            id("3253122f-b218-4650-a5bb-8ed09854721e"),
            RelationshipType::Manga,
            Some(RelatedKind::Manga),
        ),
        rel(
            id("4ef000c7-a1b0-4f19-9bfd-6787b5ed0e07"),
            RelationshipType::User,
            Some(RelatedKind::User),
        ),
    ];
    seed_rel(&mut input, &seed, RelationshipType::User);
    assert_eq!(input.len(), 1);
    assert!(
        input[0].id == id("4ef000c7-a1b0-4f19-9bfd-6787b5ed0e07")
            || input[0].type_ == RelationshipType::User
    );
}

#[test]
fn seed_rel_replaces_only_the_kind_and_skips_unexpanded() {
    let mut input = vec![
        rel(1, RelationshipType::Author, None),
        rel(2, RelationshipType::User, None),
        rel(3, RelationshipType::Artist, None),
    ];
    let seed = vec![
        rel(10, RelationshipType::User, None),
        rel(11, RelationshipType::User, Some(RelatedKind::User)),
        rel(12, RelationshipType::Author, Some(RelatedKind::Author)),
    ];
    seed_rel(&mut input, &seed, RelationshipType::User);
    let ids: Vec<u128> = input.iter().map(|r| r.id).collect();
    assert_eq!(ids, vec![1, 3, 11]);
}

#[test]
fn validate_lists_missing_in_order() {
    let none: Vec<Relationship<u32>> = vec![];
    let required = MangaRequiredRelationship::validate(&none);
    assert_eq!(
        required,
        vec![
            MangaRequiredRelationship::Artist,
            MangaRequiredRelationship::Author,
            MangaRequiredRelationship::CoverArt
        ]
    );
    let some = vec![rel(1, RelationshipType::Author, None)];
    assert_eq!(
        MangaRequiredRelationship::validate(&some),
        vec![MangaRequiredRelationship::Artist, MangaRequiredRelationship::CoverArt]
    );
}

#[test]
fn seed_fills_missing_kinds_from_stored_copy() {
    let input = vec![rel(1, RelationshipType::Author, None)];
    let stored = vec![
        rel(20, RelationshipType::Author, Some(RelatedKind::Author)),
        rel(21, RelationshipType::Artist, Some(RelatedKind::Author)),
        rel(22, RelationshipType::CoverArt, Some(RelatedKind::CoverArt)),
        rel(23, RelationshipType::CoverArt, None),
    ];
    let seeded = MangaRequiredRelationship::seed(input, &stored);
    let ids: Vec<u128> = seeded.iter().map(|r| r.id).collect();
    assert_eq!(ids, vec![1, 21, 22]);
}

#[test]
fn seeding_twice_changes_nothing() {
    let input = vec![rel(1, RelationshipType::Author, None)];
    let stored = vec![
        rel(21, RelationshipType::Artist, Some(RelatedKind::Author)),
        rel(23, RelationshipType::CoverArt, None),
    ];
    let once = MangaRequiredRelationship::seed(input, &stored);
    let once_ids: Vec<u128> = once.iter().map(|r| r.id).collect();
    let twice = MangaRequiredRelationship::seed(once, &stored);
    let twice_ids: Vec<u128> = twice.iter().map(|r| r.id).collect();
    assert_eq!(once_ids, twice_ids);
    assert_eq!(twice_ids, vec![1, 21]);
}

#[test]
fn manga_without_stored_copy_reports_missing_kinds() {
    let data = vec![rel(1, RelationshipType::Author, None)];
    match manga_to_store(data, None) {
        Err(ManagerError::MissingRelationships(kinds)) => {
            assert_eq!(kinds, vec![RelationshipType::Artist, RelationshipType::CoverArt])
        }
        other => panic!("unexpected {:?}", other),
    }
}

#[test]
fn complete_manga_is_stored_as_is() {
    let data = vec![
        rel(1, RelationshipType::Author, None),
        rel(2, RelationshipType::Artist, None),
        rel(3, RelationshipType::CoverArt, None),
    ];
    let stored = manga_to_store(data, None).unwrap();
    assert_eq!(stored.iter().map(|r| r.id).collect::<Vec<_>>(), vec![1, 2, 3]);
}

#[test]
fn manga_with_stored_copy_is_seeded() {
    let data = vec![rel(1, RelationshipType::Author, None)];
    let copy = vec![rel(9, RelationshipType::CoverArt, Some(RelatedKind::CoverArt))];
    let stored = manga_to_store(data, Some(&copy)).unwrap();
    assert_eq!(stored.iter().map(|r| r.id).collect::<Vec<_>>(), vec![1, 9]);
}

#[test]
fn cover_needs_expanded_manga() {
    assert!(verify_cover(&vec![rel(1, RelationshipType::Manga, Some(RelatedKind::Manga))]).is_ok());
    match verify_cover(&vec![rel(1, RelationshipType::Manga, None)]) {
        Err(ManagerError::MissingRelationships(k)) => assert_eq!(k, vec![RelationshipType::Manga]),
        other => panic!("unexpected {:?}", other),
    }
    assert!(verify_cover(&vec![rel(1, RelationshipType::Manga, Some(RelatedKind::User))]).is_err());
    assert!(verify_cover::<u32>(&vec![]).is_err());
}

#[test]
fn includes_lists() {
    assert_eq!(
        MangaRequiredRelationship::get_includes(),
        vec![
            ReferenceExpansionResource::Manga,
            ReferenceExpansionResource::CoverArt,
            ReferenceExpansionResource::Artist,
            ReferenceExpansionResource::Author,
            ReferenceExpansionResource::User
        ]
    );
    assert_eq!(
        required_cover_references(),
        vec![ReferenceExpansionResource::Manga, ReferenceExpansionResource::User]
    );
    assert_eq!(RelationshipType::from(MangaRequiredRelationship::CoverArt), RelationshipType::CoverArt);
}

#[test]
fn seeding_from_a_complete_copy_leaves_nothing_required() {
    let input = vec![rel(1, RelationshipType::Tag, None)];
    let stored = vec![
        rel(20, RelationshipType::Author, Some(RelatedKind::Author)),
        rel(21, RelationshipType::Artist, Some(RelatedKind::Author)),
        rel(22, RelationshipType::CoverArt, Some(RelatedKind::CoverArt)),
    ];
    let seeded = MangaRequiredRelationship::seed(input, &stored);
    assert!(MangaRequiredRelationship::validate(&seeded).is_empty());
    assert_eq!(seeded.iter().map(|r| r.id).collect::<Vec<_>>(), vec![1, 21, 20, 22]);
}
