//! Archive entry kinds and their numeric/textual codes.
//!
//! An archive header can carry any of twelve kinds (`ArchiveKind`), but only
//! four of them may ever be recorded and applied to the filesystem
//! (`EntryKind`); every other kind is a fatal input.

use vstd::prelude::*;

verus! {

/// Every entry kind an archive header can declare.
#[derive(Clone, Copy, Debug, PartialEq, Eq, Structural)]
pub enum ArchiveKind {
    Regular,
    Link,
    Symlink,
    Char,
    Block,
    Directory,
    Fifo,
    Continuous,
    GNULongName,
    GNULongLink,
    XGlobalHeader,
    XHeader,
}

/// The four kinds that may be recorded and applied; all others are rejected.
#[derive(Clone, Copy, Debug, PartialEq, Eq, Structural)]
pub enum EntryKind {
    Regular,
    HardLink,
    Symlink,
    Directory,
}

/// The stable numeric code each archive kind is persisted under.
pub open spec fn kind_code(k: ArchiveKind) -> i32 {
    match k {
        ArchiveKind::Regular => 0,
        ArchiveKind::Link => 1,
        ArchiveKind::Symlink => 2,
        ArchiveKind::Char => 3,
        ArchiveKind::Block => 4,
        ArchiveKind::Directory => 5,
        ArchiveKind::Fifo => 6,
        ArchiveKind::Continuous => 7,
        ArchiveKind::GNULongName => 8,
        ArchiveKind::GNULongLink => 9,
        ArchiveKind::XGlobalHeader => 10,
        ArchiveKind::XHeader => 11,
    }
}

/// The human-readable name of each archive kind.
pub open spec fn kind_name(k: ArchiveKind) -> Seq<char> {
    match k {
        ArchiveKind::Regular => "Regular"@,
        ArchiveKind::Link => "Link"@,
        ArchiveKind::Symlink => "Symlink"@,
        ArchiveKind::Char => "Char"@,
        ArchiveKind::Block => "Block"@,
        ArchiveKind::Directory => "Directory"@,
        ArchiveKind::Fifo => "Fifo"@,
        ArchiveKind::Continuous => "Continuous"@,
        ArchiveKind::GNULongName => "GNULongName"@,
        ArchiveKind::GNULongLink => "GNULongLink"@,
        ArchiveKind::XGlobalHeader => "XGlobalHeader"@,
        ArchiveKind::XHeader => "XHeader"@,
    }
}

/// Which archive kinds are representable in a record.
pub open spec fn supported_kind(k: ArchiveKind) -> Option<EntryKind> {
    match k {
        ArchiveKind::Regular => Some(EntryKind::Regular),
        ArchiveKind::Link => Some(EntryKind::HardLink),
        ArchiveKind::Symlink => Some(EntryKind::Symlink),
        ArchiveKind::Directory => Some(EntryKind::Directory),
        _ => None,
    }
}

/// The archive kind a recorded kind came from.
pub open spec fn archive_kind_of(k: EntryKind) -> ArchiveKind {
    match k {
        EntryKind::Regular => ArchiveKind::Regular,
        EntryKind::HardLink => ArchiveKind::Link,
        EntryKind::Symlink => ArchiveKind::Symlink,
        EntryKind::Directory => ArchiveKind::Directory,
    }
}

pub fn datatype_to_string(data_type: &ArchiveKind) -> (r: &'static str)
    ensures
        r@ == kind_name(*data_type),
{
    match *data_type {
        ArchiveKind::Regular => "Regular",
        ArchiveKind::Link => "Link",
        ArchiveKind::Symlink => "Symlink",
        ArchiveKind::Char => "Char",
        ArchiveKind::Block => "Block",
        ArchiveKind::Directory => "Directory",
        ArchiveKind::Fifo => "Fifo",
        ArchiveKind::Continuous => "Continuous",
        ArchiveKind::GNULongName => "GNULongName",
        ArchiveKind::GNULongLink => "GNULongLink",
        ArchiveKind::XGlobalHeader => "XGlobalHeader",
        ArchiveKind::XHeader => "XHeader",
    }
}

pub fn datatype_to_i32(data_type: &ArchiveKind) -> (r: i32)
    ensures
        r == kind_code(*data_type),
{
    match *data_type {
        ArchiveKind::Regular => 0,
        ArchiveKind::Link => 1,
        ArchiveKind::Symlink => 2,
        ArchiveKind::Char => 3,
        ArchiveKind::Block => 4,
        ArchiveKind::Directory => 5,
        ArchiveKind::Fifo => 6,
        ArchiveKind::Continuous => 7,
        ArchiveKind::GNULongName => 8,
        ArchiveKind::GNULongLink => 9,
        ArchiveKind::XGlobalHeader => 10,
        ArchiveKind::XHeader => 11,
    }
}

pub fn i32_to_datatype(data_type: i32) -> (r: Option<ArchiveKind>)
    ensures
        r matches Some(k) ==> kind_code(k) == data_type,
        r is None <==> !(0 <= data_type <= 11),
{
    match data_type {
        0 => Some(ArchiveKind::Regular),
        1 => Some(ArchiveKind::Link),
        2 => Some(ArchiveKind::Symlink),
        3 => Some(ArchiveKind::Char),
        4 => Some(ArchiveKind::Block),
        5 => Some(ArchiveKind::Directory),
        6 => Some(ArchiveKind::Fifo),
        7 => Some(ArchiveKind::Continuous),
        8 => Some(ArchiveKind::GNULongName),
        9 => Some(ArchiveKind::GNULongLink),
        10 => Some(ArchiveKind::XGlobalHeader),
        11 => Some(ArchiveKind::XHeader),
        _ => None,
    }
}

/// The numeric codes and the kinds are in exact correspondence: encoding a
/// kind and decoding the code gives the kind back, for every archive kind.
pub proof fn lemma_kind_code_round_trip(k: ArchiveKind, c: i32)
    ensures
        0 <= kind_code(k) <= 11,
        kind_code(k) == c ==> (forall|k2: ArchiveKind| kind_code(k2) == c ==> k2 == k),
{
}

/// A supported archive kind maps to a recorded kind and back to itself.
pub proof fn lemma_supported_kind_round_trip(k: ArchiveKind, e: EntryKind)
    ensures
        supported_kind(k) == Some(e) ==> archive_kind_of(e) == k,
        supported_kind(archive_kind_of(e)) == Some(e),
{
}

} // verus!
