//! Per-path identity records.
//!
//! An `EntryRecord` describes one archived path as it was last applied:
//! payload size, content fingerprint, kind, permission bits and owner ids.
//! The fingerprint is the MD5 digest of the payload bytes (file content for
//! regular files, the link-target bytes for links, nothing for directories).

use vstd::prelude::*;

use crate::kinds::{ArchiveKind, EntryKind, supported_kind};

verus! {

/// The 128-bit fingerprint of a payload, as the digest primitive computes it.
pub uninterp spec fn md5_of(data: Seq<u8>) -> Seq<u8>;

/// Relies on md5::compute: the digest is a function of the input bytes alone
/// and is always 16 bytes wide.
#[verifier::external_body]
fn md5_digest(data: &Vec<u8>) -> (r: [u8; 16])
    ensures
        r@ == md5_of(data@),
        r@.len() == 16,
{
    md5::compute(data.as_slice()).0
}

/// A 128-bit content fingerprint.
#[derive(Clone, Copy, Debug, PartialEq, Eq)]
pub struct MD5Sum(pub [u8; 16]);

impl View for MD5Sum {
    type V = Seq<u8>;

    open spec fn view(&self) -> Seq<u8> {
        self.0@
    }
}

impl MD5Sum {
    /// Whether two fingerprints hold the same bytes.
    pub fn same(&self, other: &MD5Sum) -> (r: bool)
        ensures
            r <==> self@ == other@,
    {
        let mut i: usize = 0;
        while i < 16
            invariant
                i <= 16,
                forall|j: int| 0 <= j < i ==> self.0@[j] == other.0@[j],
            decreases 16 - i,
        {
            if self.0[i] != other.0[i] {
                assert(self@[i as int] != other@[i as int]);
                return false;
            }
            i += 1;
        }
        assert(self@ =~= other@);
        true
    }
}

/// The mathematical content of an `EntryRecord`.
#[verifier::ext_equal]
pub struct RecordV {
    pub path: Seq<char>,
    pub size: nat,
    pub digest: Seq<u8>,
    pub data_type: EntryKind,
    pub perm: u32,
    pub uid: u64,
    pub gid: u64,
}

/// One archived path's last-applied identity.
#[derive(Debug)]
pub struct EntryRecord {
    pub path: String,
    pub size: usize,
    pub digest: MD5Sum,
    pub data_type: EntryKind,
    pub perm: u32,
    pub uid: u64,
    pub gid: u64,
}

impl View for EntryRecord {
    type V = RecordV;

    open spec fn view(&self) -> RecordV {
        RecordV {
            path: self.path@,
            size: self.size as nat,
            digest: self.digest@,
            data_type: self.data_type,
            perm: self.perm,
            uid: self.uid,
            gid: self.gid,
        }
    }
}

/// Whether two records agree on every identity field: size, digest, kind,
/// permissions and owner ids. The path is not part of the identity.
pub open spec fn same_identity(a: RecordV, b: RecordV) -> bool {
    &&& a.size == b.size
    &&& a.digest == b.digest
    &&& a.data_type == b.data_type
    &&& a.perm == b.perm
    &&& a.uid == b.uid
    &&& a.gid == b.gid
}

/// A fatal condition raised while building or applying records.
#[derive(Clone, Copy, Debug, PartialEq, Eq, Structural)]
pub enum TarplyError {
    /// The archive declared an entry kind outside the four supported ones.
    UnsupportedKind(ArchiveKind),
    /// A link entry carried no link target.
    MissingLinkTarget,
    /// The path of an entry is absolute, which would escape the root.
    AbsolutePath,
    /// A link target must be text but its bytes are not valid UTF-8.
    InvalidText,
    /// The persisted state could not be decoded.
    CorruptState,
}

/// The payload a record's size and digest are computed over: file content for
/// regular files, the link-target bytes for links, nothing for directories.
pub open spec fn payload_of(
    kind: EntryKind,
    content: Seq<u8>,
    link_target: Option<Seq<u8>>,
) -> Seq<u8> {
    match kind {
        EntryKind::Regular => content,
        EntryKind::HardLink => link_target->Some_0,
        EntryKind::Symlink => link_target->Some_0,
        EntryKind::Directory => Seq::empty(),
    }
}

/// The record an accepted entry gives rise to.
pub open spec fn built_record(
    path: Seq<char>,
    kind: EntryKind,
    payload: Seq<u8>,
    perm: u32,
    uid: u64,
    gid: u64,
) -> RecordV {
    RecordV {
        path: path,
        size: payload.len(),
        digest: md5_of(payload),
        data_type: kind,
        perm: perm,
        uid: uid,
        gid: gid,
    }
}

impl EntryRecord {
    /// Build the record for one archive entry, together with the payload
    /// bytes its size and digest were computed over.
    ///
    /// Fails on any entry kind outside {Regular, HardLink, Symlink,
    /// Directory}, and on a link entry that carries no target.
    pub fn new(
        path: String,
        kind: ArchiveKind,
        content: Vec<u8>,
        link_target: Option<Vec<u8>>,
        perm: u32,
        uid: u64,
        gid: u64,
    ) -> (r: Result<(EntryRecord, Vec<u8>), TarplyError>)
        ensures
            r matches Ok((rec, payload)) ==> {
                &&& supported_kind(kind) == Some(rec.data_type)
                &&& payload@ == payload_of(
                    rec.data_type,
                    content@,
                    match link_target {
                        Some(t) => Some(t@),
                        None => None,
                    },
                )
                &&& rec@ == built_record(path@, rec.data_type, payload@, perm, uid, gid)
            },
            r matches Err(e) ==> {
                ||| (e == TarplyError::UnsupportedKind(kind) && supported_kind(kind) is None)
                ||| {
                    &&& e == TarplyError::MissingLinkTarget
                    &&& link_target is None
                    &&& (supported_kind(kind) == Some(EntryKind::HardLink) || supported_kind(kind)
                        == Some(EntryKind::Symlink))
                }
            },
            r is Ok <==> (supported_kind(kind) is Some && !(link_target is None && (supported_kind(
                kind,
            ) == Some(EntryKind::HardLink) || supported_kind(kind) == Some(EntryKind::Symlink)))),
    {
        let data_type = match supported_kind_exec(kind) {
            Some(t) => t,
            None => {
                return Err(TarplyError::UnsupportedKind(kind));
            },
        };
        let payload: Vec<u8> = match data_type {
            EntryKind::Regular => content,
            EntryKind::Directory => Vec::new(),
            EntryKind::HardLink | EntryKind::Symlink => {
                match link_target {
                    Some(t) => t,
                    None => {
                        return Err(TarplyError::MissingLinkTarget);
                    },
                }
            },
        };
        let digest = MD5Sum(md5_digest(&payload));
        let size = payload.len();
        Ok((
            EntryRecord { path, size, digest, data_type, perm, uid, gid },
            payload,
        ))
    }

    /// A copy of the record, equal to the original field for field.
    pub fn duplicate(&self) -> (r: EntryRecord)
        ensures
            r@ == self@,
    {
        EntryRecord {
            path: self.path.clone(),
            size: self.size,
            digest: self.digest,
            data_type: self.data_type,
            perm: self.perm,
            uid: self.uid,
            gid: self.gid,
        }
    }

    /// Whether another record matches this one on every identity field.
    pub fn same_identity(&self, other: &EntryRecord) -> (r: bool)
        ensures
            r <==> same_identity(self@, other@),
    {
        self.size == other.size && self.digest.same(&other.digest) && self.data_type
            == other.data_type && self.perm == other.perm && self.uid == other.uid && self.gid
            == other.gid
    }
}

/// Executable form of `supported_kind`.
pub fn supported_kind_exec(k: ArchiveKind) -> (r: Option<EntryKind>)
    ensures
        r == supported_kind(k),
{
    match k {
        ArchiveKind::Regular => Some(EntryKind::Regular),
        ArchiveKind::Link => Some(EntryKind::HardLink),
        ArchiveKind::Symlink => Some(EntryKind::Symlink),
        ArchiveKind::Directory => Some(EntryKind::Directory),
        _ => None,
    }
}

} // verus!
