//! Plain-value descriptions of the MangaDex objects that the rules read.

use vstd::prelude::*;

verus! {

/// Which quality of chapter images.
#[derive(Debug, Clone, Copy, PartialEq, Eq, Structural, PartialOrd, Ord, Hash)]
pub enum Mode {
    Data,
    DataSaver,
}

impl Default for Mode {
    fn default() -> (r: Mode)
        ensures
            r == Mode::Data,
    {
        Mode::Data
    }
}

/// The kind of object a relationship points to.
#[derive(Debug, Clone, Copy, PartialEq, Eq, Structural, Hash)]
pub enum RelationshipType {
    Manga,
    Chapter,
    CoverArt,
    Author,
    Artist,
    ScanlationGroup,
    Tag,
    User,
    CustomList,
    MappingId,
    Leader,
    Member,
    ReportReason,
    Report,
    UploadSession,
    UploadSessionFile,
    Collection,
    MangaRelation,
    Creator,
    Thread,
    ApiClient,
    SettingsTemplate,
    MangaRecommendation,
    Unknown,
}

/// The kind of the attributes that an expanded relationship carries.
#[derive(Debug, Clone, Copy, PartialEq, Eq, Structural, Hash)]
pub enum RelatedKind {
    Manga,
    Chapter,
    CoverArt,
    Author,
    ScanlationGroup,
    Tag,
    User,
    CustomList,
}

/// A link from an object to another; `payload` carries whatever else the
/// caller keeps with it.
#[derive(Debug, Clone, Copy)]
pub struct Relationship<P> {
    pub id: u128,
    pub type_: RelationshipType,
    pub attributes: Option<RelatedKind>,
    pub payload: P,
}

/// Publication status of a manga.
#[derive(Debug, Clone, Copy, PartialEq, Eq, Structural, Hash)]
pub enum MangaStatus {
    Ongoing,
    Completed,
    Hiatus,
    Cancelled,
}

/// Target demographic of a manga.
#[derive(Debug, Clone, Copy, PartialEq, Eq, Structural, Hash)]
pub enum Demographic {
    Shounen,
    Shoujo,
    Seinen,
    Josei,
    NoDemographic,
}

/// Content rating of a manga.
#[derive(Debug, Clone, Copy, PartialEq, Eq, Structural, Hash)]
pub enum ContentRating {
    Erotica,
    Pornographic,
    Safe,
    Suggestive,
}

/// Whether every listed tag or any listed tag must match.
#[derive(Debug, Clone, Copy, PartialEq, Eq, Structural, Hash)]
pub enum TagSearchMode {
    And,
    Or,
}

/// The kinds of related objects that a request can ask to have expanded.
#[derive(Debug, Clone, Copy, PartialEq, Eq, Structural, Hash)]
pub enum ReferenceExpansionResource {
    Manga,
    CoverArt,
    Artist,
    Author,
    User,
    Chapter,
    ScanlationGroup,
    Tag,
}

/// Ascending or descending order.
#[derive(Debug, Clone, Copy, PartialEq, Eq, Structural, Hash)]
pub enum OrderDirection {
    Ascending,
    Descending,
}

/// What the rules read of a manga. Dates are Unix timestamps in nanoseconds;
/// languages are their MangaDex codes.
#[derive(Debug)]
pub struct MangaEntry {
    pub id: u128,
    pub relationships: Vec<Relationship<()>>,
    pub titles: Vec<String>,
    pub alt_titles: Vec<Vec<String>>,
    pub original_language: String,
    pub publication_demographic: Option<Demographic>,
    pub status: MangaStatus,
    pub year: Option<u16>,
    pub content_rating: Option<ContentRating>,
    pub tags: Vec<u128>,
    pub created_at: i128,
    pub updated_at: Option<i128>,
}

/// What the rules read of a cover.
#[derive(Debug)]
pub struct CoverEntry {
    pub id: u128,
    pub relationships: Vec<Relationship<()>>,
    pub locale: Option<String>,
    pub file_name: String,
}

/// What the rules read of a chapter.
#[derive(Debug)]
pub struct ChapterEntry {
    pub id: u128,
    pub relationships: Vec<Relationship<()>>,
    pub created_at: i128,
    pub updated_at: Option<i128>,
    pub publish_at: Option<i128>,
    pub readable_at: Option<i128>,
}

/// The first relationship of type `t`.
pub open spec fn first_of_type<P>(s: Seq<Relationship<P>>, t: RelationshipType) -> Option<
    Relationship<P>,
>
    decreases s.len(),
{
    if s.len() == 0 {
        None
    } else if s[0].type_ == t {
        Some(s[0])
    } else {
        first_of_type(s.drop_first(), t)
    }
}

/// The ids of the relationships of type `t`, in order.
pub open spec fn ids_of_type<P>(s: Seq<Relationship<P>>, t: RelationshipType) -> Seq<u128>
    decreases s.len(),
{
    if s.len() == 0 {
        Seq::empty()
    } else if s.last().type_ == t {
        ids_of_type(s.drop_last(), t).push(s.last().id)
    } else {
        ids_of_type(s.drop_last(), t)
    }
}

proof fn lemma_first_of_type_skip<P>(s: Seq<Relationship<P>>, t: RelationshipType, i: int)
    requires
        0 <= i < s.len(),
    ensures
        first_of_type(s.skip(i), t) == if s[i].type_ == t {
            Some(s[i])
        } else {
            first_of_type(s.skip(i + 1), t)
        },
{
    assert(s.skip(i)[0] == s[i]);
    assert(s.skip(i).drop_first() =~= s.skip(i + 1));
}

/// The first relationship of type `t`, as `ApiObject::find_first_relationships`.
pub fn find_first_relationships<P>(rels: &Vec<Relationship<P>>, t: RelationshipType) -> (r:
    Option<&Relationship<P>>)
    ensures
        r is Some <==> first_of_type(rels@, t) is Some,
        r matches Some(x) ==> first_of_type(rels@, t) == Some(*x),
{
    let mut i: usize = 0;
    assert(rels@.skip(0) =~= rels@);
    while i < rels.len()
        invariant
            0 <= i <= rels@.len(),
            first_of_type(rels@, t) == first_of_type(rels@.skip(i as int), t),
        decreases rels@.len() - i,
    {
        proof {
            lemma_first_of_type_skip(rels@, t, i as int);
        }
        if rels[i].type_ == t {
            return Some(&rels[i]);
        }
        i = i + 1;
    }
    assert(rels@.skip(i as int).len() == 0);
    None
}

/// The ids of the relationships of type `t`, in order, as the ids of
/// `ApiObject::find_relationships`.
pub fn find_relationship_ids<P>(rels: &Vec<Relationship<P>>, t: RelationshipType) -> (r: Vec<u128>)
    ensures
        r@ == ids_of_type(rels@, t),
{
    let mut r: Vec<u128> = Vec::new();
    let mut i: usize = 0;
    assert(rels@.take(0) =~= Seq::<Relationship<P>>::empty());
    while i < rels.len()
        invariant
            0 <= i <= rels@.len(),
            r@ == ids_of_type(rels@.take(i as int), t),
        decreases rels@.len() - i,
    {
        assert(rels@.take(i + 1).drop_last() =~= rels@.take(i as int));
        if rels[i].type_ == t {
            r.push(rels[i].id);
        }
        i = i + 1;
    }
    assert(rels@.take(rels@.len() as int) =~= rels@);
    r
}

/// Whether `v` holds a string equal to `x`.
pub fn contains_string(v: &Vec<String>, x: &String) -> (r: bool)
    ensures
        r == exists|i: int| 0 <= i < v@.len() && #[trigger] v@[i]@ == x@,
{
    let mut i: usize = 0;
    while i < v.len()
        invariant
            0 <= i <= v@.len(),
            forall|j: int| 0 <= j < i ==> #[trigger] v@[j]@ != x@,
        decreases v@.len() - i,
    {
        if v[i].eq(x) {
            return true;
        }
        i = i + 1;
    }
    false
}

/// The views of a list of strings.
pub open spec fn views(v: Seq<String>) -> Seq<Seq<char>> {
    v.map_values(|s: String| s@)
}

} // verus!
