//! What the manager reports when the data it is handed falls short.

use vstd::prelude::*;

use crate::model::RelationshipType;

verus! {

/// An error of the manager's rules.
#[derive(Debug)]
pub enum ManagerError {
    /// The object lacks relationships of these kinds.
    MissingRelationships(Vec<RelationshipType>),
    /// A pattern did not compile.
    Regex(regex::Error),
}

/// The error that names a single missing kind of relationship.
pub open spec fn is_missing(r: ManagerError, t: RelationshipType) -> bool {
    r matches ManagerError::MissingRelationships(v) && v@ == seq![t]
}

/// Reports that the relationships of kind `t` are missing.
pub fn missing(t: RelationshipType) -> (r: ManagerError)
    ensures
        is_missing(r, t),
{
    let mut v: Vec<RelationshipType> = Vec::new();
    v.push(t);
    ManagerError::MissingRelationships(v)
}

} // verus!
