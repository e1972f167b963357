//! What is checked, and completed, before an object is stored.

use vstd::prelude::*;

use crate::error::{is_missing, missing, ManagerError};
use crate::model::{
    find_first_relationships, first_of_type, ReferenceExpansionResource, RelatedKind, Relationship,
    RelationshipType,
};

verus! {

/// The relationships of `s` that are not of kind `t`, in order.
pub open spec fn without_kind<P>(s: Seq<Relationship<P>>, t: RelationshipType) -> Seq<
    Relationship<P>,
>
    decreases s.len(),
{
    if s.len() == 0 {
        Seq::empty()
    } else if s.last().type_ != t {
        without_kind(s.drop_last(), t).push(s.last())
    } else {
        without_kind(s.drop_last(), t)
    }
}

/// The relationships of `s` of kind `t` that carry attributes, in order.
pub open spec fn expanded_of_kind<P>(s: Seq<Relationship<P>>, t: RelationshipType) -> Seq<
    Relationship<P>,
>
    decreases s.len(),
{
    if s.len() == 0 {
        Seq::empty()
    } else if s.last().type_ == t && s.last().attributes is Some {
        expanded_of_kind(s.drop_last(), t).push(s.last())
    } else {
        expanded_of_kind(s.drop_last(), t)
    }
}

/// The relationships that seeding kind `t` from `seed` leaves on `input`.
pub open spec fn seeded_with<P>(
    input: Seq<Relationship<P>>,
    seed: Seq<Relationship<P>>,
    t: RelationshipType,
) -> Seq<Relationship<P>> {
    without_kind(input, t) + expanded_of_kind(seed, t)
}

/// Replaces the relationships of kind `rel` on `input` with the expanded
/// relationships of that kind on `seed`.
pub fn seed_rel<P: Copy>(
    input: &mut Vec<Relationship<P>>,
    seed: &Vec<Relationship<P>>,
    rel: RelationshipType,
)
    ensures
        final(input)@ == seeded_with(old(input)@, seed@, rel),
{
    let mut kept: Vec<Relationship<P>> = Vec::new();
    let mut i: usize = 0;
    assert(input@.take(0) =~= Seq::<Relationship<P>>::empty());
    while i < input.len()
        invariant
            0 <= i <= input@.len(),
            kept@ == without_kind(input@.take(i as int), rel),
        decreases input@.len() - i,
    {
        assert(input@.take(i + 1).drop_last() =~= input@.take(i as int));
        let r = input[i];
        if r.type_ != rel {
            kept.push(r);
        }
        i = i + 1;
    }
    assert(input@.take(input@.len() as int) =~= input@);
    let ghost base = kept@;
    let mut j: usize = 0;
    assert(seed@.take(0) =~= Seq::<Relationship<P>>::empty());
    assert(base + Seq::<Relationship<P>>::empty() =~= base);
    while j < seed.len()
        invariant
            0 <= j <= seed@.len(),
            kept@ == base + expanded_of_kind(seed@.take(j as int), rel),
        decreases seed@.len() - j,
    {
        assert(seed@.take(j + 1).drop_last() =~= seed@.take(j as int));
        let r = seed[j];
        if r.type_ == rel && r.attributes.is_some() {
            kept.push(r);
            assert(base + expanded_of_kind(seed@.take(j + 1), rel) =~= (base
                + expanded_of_kind(seed@.take(j as int), rel)).push(r));
        }
        j = j + 1;
    }
    assert(seed@.take(seed@.len() as int) =~= seed@);
    *input = kept;
}

/// A relationship that a manga must have before it is stored.
#[derive(Debug, Clone, Copy, PartialEq, Eq, Structural)]
pub enum MangaRequiredRelationship {
    Author,
    Artist,
    CoverArt,
}

/// The kind of relationship that a requirement asks for.
pub open spec fn required_kind(r: MangaRequiredRelationship) -> RelationshipType {
    match r {
        MangaRequiredRelationship::Author => RelationshipType::Author,
        MangaRequiredRelationship::Artist => RelationshipType::Artist,
        MangaRequiredRelationship::CoverArt => RelationshipType::CoverArt,
    }
}

impl From<MangaRequiredRelationship> for RelationshipType {
    fn from(value: MangaRequiredRelationship) -> (r: RelationshipType) {
        match value {
            MangaRequiredRelationship::Author => RelationshipType::Author,
            MangaRequiredRelationship::Artist => RelationshipType::Artist,
            MangaRequiredRelationship::CoverArt => RelationshipType::CoverArt,
        }
    }
}

impl vstd::std_specs::convert::FromSpecImpl<MangaRequiredRelationship> for RelationshipType {
    open spec fn obeys_from_spec() -> bool {
        true
    }

    open spec fn from_spec(value: MangaRequiredRelationship) -> RelationshipType {
        required_kind(value)
    }
}

/// Whether `s` has a relationship of kind `t`.
pub open spec fn has_kind<P>(s: Seq<Relationship<P>>, t: RelationshipType) -> bool {
    first_of_type(s, t) is Some
}

/// The requirements that `s` misses: an artist, an author and a cover, in
/// that order.
pub open spec fn spec_required<P>(s: Seq<Relationship<P>>) -> Seq<MangaRequiredRelationship> {
    let a = if has_kind(s, RelationshipType::Artist) {
        Seq::empty()
    } else {
        seq![MangaRequiredRelationship::Artist]
    };
    let b = if has_kind(s, RelationshipType::Author) {
        Seq::empty()
    } else {
        seq![MangaRequiredRelationship::Author]
    };
    let c = if has_kind(s, RelationshipType::CoverArt) {
        Seq::empty()
    } else {
        seq![MangaRequiredRelationship::CoverArt]
    };
    a + b + c
}

/// Seeds each requirement of `reqs`, in order.
pub open spec fn seeded_all<P>(
    input: Seq<Relationship<P>>,
    seed: Seq<Relationship<P>>,
    reqs: Seq<MangaRequiredRelationship>,
) -> Seq<Relationship<P>>
    decreases reqs.len(),
{
    if reqs.len() == 0 {
        input
    } else {
        seeded_with(seeded_all(input, seed, reqs.drop_last()), seed, required_kind(reqs.last()))
    }
}

/// The relationships of a manga once it is seeded from a stored copy: each
/// missing kind is taken from the stored copy.
pub open spec fn spec_seed<P>(input: Seq<Relationship<P>>, seed: Seq<Relationship<P>>) -> Seq<
    Relationship<P>,
> {
    seeded_all(input, seed, spec_required(input))
}

impl MangaRequiredRelationship {
    /// The related objects to expand when a manga is fetched.
    pub fn get_includes() -> (r: Vec<ReferenceExpansionResource>)
        ensures
            r@ == seq![
                ReferenceExpansionResource::Manga,
                ReferenceExpansionResource::CoverArt,
                ReferenceExpansionResource::Artist,
                ReferenceExpansionResource::Author,
                ReferenceExpansionResource::User,
            ],
    {
        let mut v: Vec<ReferenceExpansionResource> = Vec::new();
        v.push(ReferenceExpansionResource::Manga);
        v.push(ReferenceExpansionResource::CoverArt);
        v.push(ReferenceExpansionResource::Artist);
        v.push(ReferenceExpansionResource::Author);
        v.push(ReferenceExpansionResource::User);
        v
    }

    /// The requirements that the relationships miss.
    pub fn validate<P>(rels: &Vec<Relationship<P>>) -> (r: Vec<MangaRequiredRelationship>)
        ensures
            r@ == spec_required(rels@),
    {
        let mut required: Vec<MangaRequiredRelationship> = Vec::new();
        if find_first_relationships(rels, RelationshipType::Artist).is_none() {
            required.push(MangaRequiredRelationship::Artist);
        }
        if find_first_relationships(rels, RelationshipType::Author).is_none() {
            required.push(MangaRequiredRelationship::Author);
        }
        if find_first_relationships(rels, RelationshipType::CoverArt).is_none() {
            required.push(MangaRequiredRelationship::CoverArt);
        }
        assert(required@ =~= spec_required(rels@));
        required
    }

    /// Completes the relationships that `input` misses from `seed`.
    pub fn seed<P: Copy>(input: Vec<Relationship<P>>, seed: &Vec<Relationship<P>>) -> (r: Vec<
        Relationship<P>,
    >)
        ensures
            r@ == spec_seed(input@, seed@),
    {
        let required = Self::validate(&input);
        let ghost reqs = required@;
        let ghost start = input@;
        let mut input = input;
        let mut i: usize = 0;
        assert(reqs.take(0) =~= Seq::<MangaRequiredRelationship>::empty());
        while i < required.len()
            invariant
                0 <= i <= required@.len(),
                required@ == reqs,
                input@ == seeded_all(start, seed@, reqs.take(i as int)),
            decreases required@.len() - i,
        {
            assert(reqs.take(i + 1).drop_last() =~= reqs.take(i as int));
            let req = required[i];
            let kind = RelationshipType::from(req);
            seed_rel(&mut input, seed, kind);
            i = i + 1;
        }
        assert(reqs.take(reqs.len() as int) =~= reqs);
        input
    }
}

/// The related objects to expand when a cover is fetched.
pub fn required_cover_references() -> (r: Vec<ReferenceExpansionResource>)
    ensures
        r@ == seq![ReferenceExpansionResource::Manga, ReferenceExpansionResource::User],
{
    let mut v: Vec<ReferenceExpansionResource> = Vec::new();
    v.push(ReferenceExpansionResource::Manga);
    v.push(ReferenceExpansionResource::User);
    v
}

/// Whether a cover may be stored: its first manga relationship carries the
/// manga's attributes.
pub open spec fn spec_cover_storable<P>(rels: Seq<Relationship<P>>) -> bool {
    first_of_type(rels, RelationshipType::Manga) matches Some(m) && m.attributes == Some(
        RelatedKind::Manga,
    )
}

/// Checks a cover before it is stored.
pub fn verify_cover<P>(rels: &Vec<Relationship<P>>) -> (r: Result<(), ManagerError>)
    ensures
        r is Ok <==> spec_cover_storable(rels@),
        r matches Err(e) ==> is_missing(e, RelationshipType::Manga),
{
    match find_first_relationships(rels, RelationshipType::Manga) {
        Some(m) => match m.attributes {
            Some(RelatedKind::Manga) => Ok(()),
            _ => Err(missing(RelationshipType::Manga)),
        },
        None => Err(missing(RelationshipType::Manga)),
    }
}

/// The kinds of relationship that the requirements ask for, in order.
pub open spec fn required_kinds(reqs: Seq<MangaRequiredRelationship>) -> Seq<RelationshipType> {
    reqs.map_values(|r: MangaRequiredRelationship| required_kind(r))
}

/// Decides what relationships a manga is stored with: seeded from the copy
/// already stored when there is one, as it is when it misses nothing, and
/// refused with the missing kinds otherwise.
pub fn manga_to_store<P: Copy>(
    data: Vec<Relationship<P>>,
    stored: Option<&Vec<Relationship<P>>>,
) -> (r: Result<Vec<Relationship<P>>, ManagerError>)
    ensures
        stored matches Some(s) ==> (r matches Ok(v) && v@ == spec_seed(data@, s@)),
        stored is None && spec_required(data@).len() == 0 ==> (r matches Ok(v) && v@ == data@),
        stored is None && spec_required(data@).len() > 0 ==> (r matches Err(
            ManagerError::MissingRelationships(v),
        ) && v@ == required_kinds(spec_required(data@))),
{
    match stored {
        Some(s) => Ok(MangaRequiredRelationship::seed(data, s)),
        None => {
            let required = MangaRequiredRelationship::validate(&data);
            if required.len() == 0 {
                Ok(data)
            } else {
                let mut kinds: Vec<RelationshipType> = Vec::new();
                let mut i: usize = 0;
                while i < required.len()
                    invariant
                        0 <= i <= required@.len(),
                        kinds@ == required_kinds(required@.take(i as int)),
                    decreases required@.len() - i,
                {
                    assert(required_kinds(required@.take(i + 1)) =~= required_kinds(
                        required@.take(i as int),
                    ).push(required_kind(required@[i as int])));
                    kinds.push(RelationshipType::from(required[i]));
                    i = i + 1;
                }
                assert(required@.take(required@.len() as int) =~= required@);
                Err(ManagerError::MissingRelationships(kinds))
            }
        },
    }
}

} // verus!
