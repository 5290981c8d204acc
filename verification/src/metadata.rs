//! The descriptor record of a stored object, kept separate from its
//! bytes: one `Metadata` exists per object, created with the blob on PUT,
//! read on every GET, HEAD and LIST, and deleted with the blob.

use vstd::prelude::*;

use crate::auth::AuthLevel;
use crate::bytes::{bytes_eq, sub_vec};

verus! {

/// The mathematical content of an object descriptor.
pub ghost struct MetadataV {
    pub name: Seq<u8>,
    pub key: Seq<u8>,
    pub size: u64,
    pub last_modified: u64,
    pub etag: Seq<u8>,
    pub mime_type: Seq<u8>,
    pub owner_id: Seq<u8>,
    pub readable_by: AuthLevel,
}

/// An object descriptor: display name, full key, size, modification
/// time, content hash, MIME token, the owner's access key, and the level
/// required to read the object.
#[derive(Debug)]
pub struct Metadata {
    pub name: Vec<u8>,
    pub key: Vec<u8>,
    pub size: u64,
    pub last_modified: u64,
    pub etag: Vec<u8>,
    pub mime_type: Vec<u8>,
    pub owner_id: Vec<u8>,
    pub readable_by: AuthLevel,
}

impl View for Metadata {
    type V = MetadataV;

    open spec fn view(&self) -> MetadataV {
        MetadataV {
            name: self.name@,
            key: self.key@,
            size: self.size,
            last_modified: self.last_modified,
            etag: self.etag@,
            mime_type: self.mime_type@,
            owner_id: self.owner_id@,
            readable_by: self.readable_by,
        }
    }
}

impl PartialEq for Metadata {
    /// Field-wise equality of descriptors.
    fn eq(&self, other: &Metadata) -> (r: bool) {
        bytes_eq(self.name.as_slice(), other.name.as_slice()) && bytes_eq(
            self.key.as_slice(),
            other.key.as_slice(),
        ) && self.size == other.size && self.last_modified == other.last_modified && bytes_eq(
            self.etag.as_slice(),
            other.etag.as_slice(),
        ) && bytes_eq(self.mime_type.as_slice(), other.mime_type.as_slice()) && bytes_eq(
            self.owner_id.as_slice(),
            other.owner_id.as_slice(),
        ) && self.readable_by == other.readable_by
    }
}

impl vstd::std_specs::cmp::PartialEqSpecImpl for Metadata {
    open spec fn obeys_eq_spec() -> bool {
        true
    }

    open spec fn eq_spec(&self, other: &Metadata) -> bool {
        self@ == other@
    }
}

impl Metadata {
    /// An exact copy of the descriptor.
    pub fn duplicate(&self) -> (r: Metadata)
        ensures
            r@ == self@,
    {
        let r = Metadata {
            name: sub_vec(self.name.as_slice(), 0, self.name.len()),
            key: sub_vec(self.key.as_slice(), 0, self.key.len()),
            size: self.size,
            last_modified: self.last_modified,
            etag: sub_vec(self.etag.as_slice(), 0, self.etag.len()),
            mime_type: sub_vec(self.mime_type.as_slice(), 0, self.mime_type.len()),
            owner_id: sub_vec(self.owner_id.as_slice(), 0, self.owner_id.len()),
            readable_by: self.readable_by,
        };
        proof {
            assert(r.name@ =~= self.name@);
            assert(r.key@ =~= self.key@);
            assert(r.etag@ =~= self.etag@);
            assert(r.mime_type@ =~= self.mime_type@);
            assert(r.owner_id@ =~= self.owner_id@);
        }
        r
    }
}

} // verus!
