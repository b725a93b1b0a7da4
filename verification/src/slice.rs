//! Types for slice data.
use crate::ase::AseId;
pub use asefile::{Slice9, SliceKey, UserData};
use vstd::prelude::*;

verus! {

/// Key frame of a slice, as the file format library decodes it. The pipeline
/// carries these through without looking inside.
#[verifier::external_type_specification]
#[verifier::external_body]
pub struct ExSliceKey(asefile::SliceKey);

/// User data attached to a slice, as the file format library decodes it. The
/// pipeline carries it through without looking inside.
#[verifier::external_type_specification]
#[verifier::external_body]
pub struct ExUserData(asefile::UserData);

/// Identifier for a [Slice] within a sprite file: its position among the
/// file's slices.
#[derive(Debug, Clone, Copy, PartialEq, Eq, Hash, Structural)]
pub struct SliceId(pub u32);

impl SliceId {
    /// Creates a new [SliceId] with an inner [u32] value.
    pub fn new(inner: u32) -> (id: Self)
        ensures
            id.0 == inner,
    {
        Self(inner)
    }

    /// Returns a reference to the id's inner value.
    pub fn inner(&self) -> (inner: &u32)
        ensures
            *inner == self.0,
    {
        &self.0
    }
}

/// Unique identifier for a [Slice] with an [AseId] and a [SliceId].
#[derive(Debug, Clone, Copy, PartialEq, Eq, Hash, Structural)]
pub struct SliceAseKey {
    pub ase_id: AseId,
    pub slice_id: SliceId,
}

impl SliceAseKey {
    /// Creates a new [SliceAseKey] from an [AseId] and a [SliceId].
    pub fn new(ase_id: AseId, slice_id: SliceId) -> (key: Self)
        ensures
            key.ase_id == ase_id,
            key.slice_id == slice_id,
    {
        Self { ase_id, slice_id }
    }

    /// Returns a reference to the key's [AseId].
    pub fn ase_id(&self) -> (id: &AseId)
        ensures
            *id == self.ase_id,
    {
        &self.ase_id
    }

    /// Returns a reference to the key's [SliceId].
    pub fn slice_id(&self) -> (id: &SliceId)
        ensures
            *id == self.slice_id,
    {
        &self.slice_id
    }
}

/// A slice as it comes out of a sprite file.
pub struct SliceData {
    /// The name of the slice. Not guaranteed to be unique.
    pub name: String,
    /// The key frames of the slice. Together, these describe the shape and
    /// position of the slice during animation.
    pub keys: Vec<asefile::SliceKey>,
    /// Optional user data associated with this slice.
    pub user_data: Option<asefile::UserData>,
}

/// A slice is a region of a sprite with a name and optional user data.
pub struct Slice {
    /// The key field uniquely identifies a Slice with an [AseId] and a [SliceId].
    pub key: SliceAseKey,
    /// The name of the slice. Not guaranteed to be unique.
    pub name: String,
    /// The key frames of the slice. Together, these describe the shape and
    /// position of the slice during animation.
    pub keys: Vec<asefile::SliceKey>,
    /// Optional user data associated with this slice.
    pub user_data: Option<asefile::UserData>,
}

impl Slice {
    /// Makes the slice resource of a file's slice, under the given key.
    pub fn from_ase(ase_slice: SliceData, key: SliceAseKey) -> (s: Self)
        ensures
            s.key == key,
            s.name == ase_slice.name,
            s.keys == ase_slice.keys,
            s.user_data == ase_slice.user_data,
    {
        Self { key, name: ase_slice.name, keys: ase_slice.keys, user_data: ase_slice.user_data }
    }
}

} // verus!
