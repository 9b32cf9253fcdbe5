//! The dense binary encoding of a `FileTree`.
//!
//! The format is private to this tool: a little-endian record count, then
//! each record as path length, UTF-8 path bytes, payload size, the 16 digest
//! bytes, a kind code, permission bits and owner ids. Decoding accepts
//! exactly the encodings this module produces and rejects everything else,
//! duplicate paths included.

use vstd::prelude::*;
use vstd::bytes::{
    spec_u32_from_le_bytes, spec_u32_to_le_bytes, spec_u64_from_le_bytes, spec_u64_to_le_bytes,
    u32_from_le_bytes, u32_to_le_bytes, u64_from_le_bytes, u64_to_le_bytes,
    lemma_auto_spec_u32_to_from_le_bytes, lemma_auto_spec_u64_to_from_le_bytes,
};
use vstd::slice::{slice_subrange, slice_to_vec};
use vstd::string::StrSliceExecFns;
use vstd::string::StringSliceAdditionalSpecFns;
use vstd::utf8::{
    decode_utf8, encode_utf8, encode_utf8_decode_utf8, encode_utf8_valid_utf8, valid_utf8,
};

use crate::kinds::{EntryKind, archive_kind_of, kind_code};
use crate::record::{EntryRecord, MD5Sum, RecordV};
use crate::state::{FileTree, has_path, wf_tree};
use crate::text::bytes_to_string;

verus! {

/// The recorded kind a persisted code stands for.
pub open spec fn code_entry_kind(b: u8) -> Option<EntryKind> {
    if b == 0 {
        Some(EntryKind::Regular)
    } else if b == 1 {
        Some(EntryKind::HardLink)
    } else if b == 2 {
        Some(EntryKind::Symlink)
    } else if b == 5 {
        Some(EntryKind::Directory)
    } else {
        None
    }
}

/// The persisted code of a recorded kind.
pub fn entry_kind_code(k: EntryKind) -> (r: u8)
    ensures
        r as int == kind_code(archive_kind_of(k)),
        code_entry_kind(r) == Some(k),
{
    match k {
        EntryKind::Regular => 0,
        EntryKind::HardLink => 1,
        EntryKind::Symlink => 2,
        EntryKind::Directory => 5,
    }
}

/// Executable form of `code_entry_kind`.
pub fn code_entry_kind_exec(b: u8) -> (r: Option<EntryKind>)
    ensures
        r == code_entry_kind(b),
{
    if b == 0 {
        Some(EntryKind::Regular)
    } else if b == 1 {
        Some(EntryKind::HardLink)
    } else if b == 2 {
        Some(EntryKind::Symlink)
    } else if b == 5 {
        Some(EntryKind::Directory)
    } else {
        None
    }
}

/// The encoding of one record.
pub open spec fn enc_record(r: RecordV) -> Seq<u8> {
    let pb = encode_utf8(r.path);
    spec_u64_to_le_bytes(pb.len() as u64) + pb + spec_u64_to_le_bytes(r.size as u64) + r.digest
        + seq![kind_code(archive_kind_of(r.data_type)) as u8] + spec_u32_to_le_bytes(r.perm)
        + spec_u64_to_le_bytes(r.uid) + spec_u64_to_le_bytes(r.gid)
}

/// The concatenated encodings of the records at positions `[k, len)`.
pub open spec fn enc_records_from(s: Seq<RecordV>, k: int) -> Seq<u8>
    decreases s.len() - k,
{
    if k < 0 || k >= s.len() {
        Seq::empty()
    } else {
        enc_record(s[k]) + enc_records_from(s, k + 1)
    }
}

/// The encoding of a whole tree: the record count, then every record.
pub open spec fn enc_tree(s: Seq<RecordV>) -> Seq<u8> {
    spec_u64_to_le_bytes(s.len() as u64) + enc_records_from(s, 0)
}

/// Whether a record fits the persisted format: 16 digest bytes, a size that
/// fits the machine, and a path whose byte length fits the length field.
pub open spec fn encodable(r: RecordV) -> bool {
    &&& r.digest.len() == 16
    &&& r.size <= usize::MAX
    &&& encode_utf8(r.path).len() <= u64::MAX
}

/// Whether a whole tree fits the persisted format.
pub open spec fn encodable_tree(s: Seq<RecordV>) -> bool {
    &&& s.len() <= u64::MAX
    &&& forall|i: int| 0 <= i < s.len() ==> encodable(#[trigger] s[i])
}

/// Decode one record from the front of `b`, returning it and the rest.
pub open spec fn dec_record(b: Seq<u8>) -> Option<(RecordV, Seq<u8>)> {
    if b.len() < 8 {
        None
    } else {
        let plen = spec_u64_from_le_bytes(b.take(8)) as int;
        let rest = b.skip(8);
        if rest.len() < plen {
            None
        } else {
            let pb = rest.take(plen);
            let rest2 = rest.skip(plen);
            if !valid_utf8(pb) {
                None
            } else if rest2.len() < 45 {
                None
            } else {
                let size = spec_u64_from_le_bytes(rest2.take(8));
                let digest = rest2.subrange(8, 24);
                let kind = code_entry_kind(rest2[24]);
                let perm = spec_u32_from_le_bytes(rest2.subrange(25, 29));
                let uid = spec_u64_from_le_bytes(rest2.subrange(29, 37));
                let gid = spec_u64_from_le_bytes(rest2.subrange(37, 45));
                if size > usize::MAX as u64 || kind is None {
                    None
                } else {
                    Some(
                        (
                            RecordV {
                                path: decode_utf8(pb),
                                size: size as nat,
                                digest: digest,
                                data_type: kind->Some_0,
                                perm: perm,
                                uid: uid,
                                gid: gid,
                            },
                            rest2.skip(45),
                        ),
                    )
                }
            }
        }
    }
}

/// Decode `n` records from the front of `b`, returning them and the rest.
pub open spec fn dec_records(b: Seq<u8>, n: nat) -> Option<(Seq<RecordV>, Seq<u8>)>
    decreases n,
{
    if n == 0 {
        Some((Seq::empty(), b))
    } else {
        match dec_record(b) {
            None => None,
            Some((r, rest)) => match dec_records(rest, (n - 1) as nat) {
                None => None,
                Some((rs, tail)) => Some((seq![r] + rs, tail)),
            },
        }
    }
}

/// Decode a whole tree: every byte must be consumed and the paths must be
/// pairwise distinct.
pub open spec fn dec_tree(b: Seq<u8>) -> Option<Seq<RecordV>> {
    if b.len() < 8 {
        None
    } else {
        let n = spec_u64_from_le_bytes(b.take(8));
        match dec_records(b.skip(8), n as nat) {
            None => None,
            Some((rs, tail)) => if tail.len() == 0 && wf_tree(rs) {
                Some(rs)
            } else {
                None
            },
        }
    }
}

/// Append the little-endian bytes of `x`.
fn push_u64(out: &mut Vec<u8>, x: u64)
    ensures
        final(out)@ == old(out)@ + spec_u64_to_le_bytes(x),
{
    let mut b = u64_to_le_bytes(x);
    out.append(&mut b);
}

/// Append the little-endian bytes of `x`.
fn push_u32(out: &mut Vec<u8>, x: u32)
    ensures
        final(out)@ == old(out)@ + spec_u32_to_le_bytes(x),
{
    let mut b = u32_to_le_bytes(x);
    out.append(&mut b);
}

impl FileTree {
    /// Encode the tree into its dense binary form.
    pub fn encode(&self) -> (r: Vec<u8>)
        ensures
            r@ == enc_tree(self@),
    {
        let n = self.entries.len();
        let mut out: Vec<u8> = Vec::new();
        push_u64(&mut out, n as u64);
        proof {
            assert(out@ + enc_records_from(self@, 0 as int) =~= enc_tree(self@));
        }
        let mut i: usize = 0;
        while i < n
            invariant
                n == self.entries.len(),
                i <= n,
                out@ + enc_records_from(self@, i as int) == enc_tree(self@),
            decreases n - i,
        {
            let ghost before = out@;
            let rec = &self.entries[i];
            let pb = rec.path.as_str().as_bytes_vec();
            push_u64(&mut out, pb.len() as u64);
            let mut pbm = pb;
            out.append(&mut pbm);
            push_u64(&mut out, rec.size as u64);
            let mut j: usize = 0;
            while j < 16
                invariant
                    j <= 16,
                    out@ == before + spec_u64_to_le_bytes(encode_utf8(self@[i as int].path).len() as u64)
                        + encode_utf8(self@[i as int].path)
                        + spec_u64_to_le_bytes(self@[i as int].size as u64)
                        + self@[i as int].digest.take(j as int),
                    i < n == self.entries.len(),
                decreases 16 - j,
            {
                out.push(self.entries[i].digest.0[j]);
                proof {
                    assert(self@[i as int].digest.take(j + 1 as int) =~= self@[i as int].digest.take(
                        j as int,
                    ).push(self@[i as int].digest[j as int]));
                    assert(out@ =~= before + spec_u64_to_le_bytes(
                        encode_utf8(self@[i as int].path).len() as u64,
                    ) + encode_utf8(self@[i as int].path) + spec_u64_to_le_bytes(
                        self@[i as int].size as u64,
                    ) + self@[i as int].digest.take(j + 1 as int));
                }
                j += 1;
            }
            out.push(entry_kind_code(self.entries[i].data_type));
            push_u32(&mut out, self.entries[i].perm);
            push_u64(&mut out, self.entries[i].uid);
            push_u64(&mut out, self.entries[i].gid);
            proof {
                assert(self@[i as int].digest.take(16) =~= self@[i as int].digest);
                assert(out@ =~= before + enc_record(self@[i as int]));
                assert(enc_records_from(self@, i as int) == enc_record(self@[i as int])
                    + enc_records_from(self@, i + 1 as int));
                assert(out@ + enc_records_from(self@, i + 1 as int) =~= before + enc_records_from(
                    self@,
                    i as int,
                ));
            }
            i += 1;
        }
        proof {
            assert(enc_records_from(self@, n as int) =~= Seq::<u8>::empty());
            assert(out@ =~= out@ + enc_records_from(self@, n as int));
        }
        out
    }

    /// Decode a tree from its dense binary form. Returns `None` unless the
    /// bytes are exactly an encoding of a well-formed tree.
    pub fn decode(data: &Vec<u8>) -> (r: Option<FileTree>)
        ensures
            match r {
                Some(t) => dec_tree(data@) == Some(t@) && wf_tree(t@),
                None => dec_tree(data@) is None,
            },
    {
        let len = data.len();
        if len < 8 {
            return None;
        }
        let n64 = u64_from_le_bytes(slice_subrange(data.as_slice(), 0, 8));
        proof {
            assert(data@.subrange(0, 8) =~= data@.take(8));
        }
        let mut tree = FileTree::new();
        let mut pos: usize = 8;
        let mut i: u64 = 0;
        while i < n64
            invariant
                len == data.len(),
                8 <= pos <= len,
                i <= n64,
                n64 == spec_u64_from_le_bytes(data@.take(8)),
                wf_tree(tree@),
                dec_records(data@.skip(8), n64 as nat) == glue(
                    tree@,
                    dec_records(data@.skip(pos as int), (n64 - i) as nat),
                ),
            decreases n64 - i,
        {
            let ghost acc0 = tree@;
            match Self::parse_record(data, pos) {
                None => {
                    proof {
                        assert(dec_records(data@.skip(pos as int), (n64 - i) as nat) is None);
                    }
                    return None;
                },
                Some((rec, newpos)) => {
                    let ghost rest_n = (n64 - i - 1) as nat;
                    proof {
                        assert(dec_records(data@.skip(pos as int), (n64 - i) as nat) == (
                        match dec_records(data@.skip(newpos as int), rest_n) {
                            None => None::<(Seq<RecordV>, Seq<u8>)>,
                            Some((rs, tail)) => Some((seq![rec@] + rs, tail)),
                        }));
                    }
                    match tree.find(&rec.path) {
                        Some(_) => {
                            proof {
                                lemma_dup_makes_unparseable(
                                    acc0,
                                    rec@,
                                    data@.skip(newpos as int),
                                    rest_n,
                                );
                            }
                            return None;
                        },
                        None => {
                            tree.entries.push(rec);
                            proof {
                                assert(tree@ =~= acc0.push(rec@));
                                assert forall|a: int, b: int|
                                    0 <= a < b < tree@.len() implies tree@[a].path
                                    != tree@[b].path by {
                                    if b < acc0.len() {
                                        assert(acc0[a].path != acc0[b].path);
                                    } else {
                                        assert(!has_path(acc0, tree@[b].path));
                                    }
                                }
                                lemma_glue_step(acc0, rec@, data@.skip(newpos as int), rest_n);
                            }
                            pos = newpos;
                            i += 1;
                        },
                    }
                },
            }
        }
        proof {
            assert(dec_records(data@.skip(pos as int), 0) == Some(
                (Seq::<RecordV>::empty(), data@.skip(pos as int)),
            ));
            assert(tree@ + Seq::<RecordV>::empty() =~= tree@);
            assert(dec_records(data@.skip(8), n64 as nat) == Some(
                (tree@, data@.skip(pos as int)),
            ));
        }
        if pos != len {
            proof {
                assert(data@.skip(pos as int).len() != 0);
            }
            return None;
        }
        proof {
            assert(data@.skip(pos as int).len() == 0);
        }
        Some(tree)
    }

    /// Decode one record starting at `pos`.
    fn parse_record(data: &Vec<u8>, pos: usize) -> (r: Option<(EntryRecord, usize)>)
        requires
            pos <= data.len(),
        ensures
            match r {
                Some((rec, newpos)) => pos < newpos <= data@.len() && dec_record(
                    data@.skip(pos as int),
                ) == Some((rec@, data@.skip(newpos as int))),
                None => dec_record(data@.skip(pos as int)) is None,
            },
    {
        let ghost b = data@.skip(pos as int);
        let len = data.len();
        if len - pos < 8 {
            return None;
        }
        let plen64 = u64_from_le_bytes(slice_subrange(data.as_slice(), pos, pos + 8));
        proof {
            assert(data@.subrange(pos as int, pos + 8 as int) =~= b.take(8));
        }
        let p1 = pos + 8;
        let remaining = len - p1;
        if (remaining as u64) < plen64 {
            proof {
                assert(b.skip(8).len() < spec_u64_from_le_bytes(b.take(8)) as int);
            }
            return None;
        }
        let plen = plen64 as usize;
        let p2 = p1 + plen;
        let pbv = slice_to_vec(slice_subrange(data.as_slice(), p1, p2));
        proof {
            assert(pbv@ =~= b.skip(8).take(plen64 as int));
        }
        let path = match bytes_to_string(&pbv) {
            Some(s) => s,
            None => {
                return None;
            },
        };
        let ghost rest2 = b.skip(8).skip(plen64 as int);
        proof {
            assert(rest2 =~= data@.skip(p2 as int));
        }
        if len - p2 < 45 {
            return None;
        }
        let size64 = u64_from_le_bytes(slice_subrange(data.as_slice(), p2, p2 + 8));
        proof {
            assert(data@.subrange(p2 as int, p2 + 8 as int) =~= rest2.take(8));
        }
        if size64 > usize::MAX as u64 {
            return None;
        }
        let mut dg = [0u8; 16];
        let mut j: usize = 0;
        while j < 16
            invariant
                j <= 16,
                p2 + 45 <= len == data.len(),
                forall|l: int| 0 <= l < j ==> dg@[l] == data@[p2 + 8 + l],
            decreases 16 - j,
        {
            dg[j] = data[p2 + 8 + j];
            j += 1;
        }
        proof {
            assert(dg@ =~= rest2.subrange(8, 24));
        }
        let kb = data[p2 + 24];
        proof {
            assert(kb == rest2[24]);
        }
        let data_type = match code_entry_kind_exec(kb) {
            Some(k) => k,
            None => {
                return None;
            },
        };
        let perm = u32_from_le_bytes(slice_subrange(data.as_slice(), p2 + 25, p2 + 29));
        let uid = u64_from_le_bytes(slice_subrange(data.as_slice(), p2 + 29, p2 + 37));
        let gid = u64_from_le_bytes(slice_subrange(data.as_slice(), p2 + 37, p2 + 45));
        proof {
            assert(data@.subrange(p2 + 25 as int, p2 + 29 as int) =~= rest2.subrange(25, 29));
            assert(data@.subrange(p2 + 29 as int, p2 + 37 as int) =~= rest2.subrange(29, 37));
            assert(data@.subrange(p2 + 37 as int, p2 + 45 as int) =~= rest2.subrange(37, 45));
        }
        let rec = EntryRecord {
            path,
            size: size64 as usize,
            digest: MD5Sum(dg),
            data_type,
            perm,
            uid,
            gid,
        };
        let newpos = p2 + 45;
        proof {
            assert(rest2.skip(45) =~= data@.skip(newpos as int));
            let expect = dec_record(b)->Some_0;
            assert(rec@ =~= expect.0);
        }
        Some((rec, newpos))
    }
}

/// Decoding the encoding of one record gives that record back, whatever
/// follows it.
proof fn lemma_enc_dec_record(r: RecordV, rest: Seq<u8>)
    requires
        encodable(r),
    ensures
        dec_record(enc_record(r) + rest) == Some((r, rest)),
{
    lemma_auto_spec_u64_to_from_le_bytes();
    lemma_auto_spec_u32_to_from_le_bytes();
    let pb = encode_utf8(r.path);
    let b = enc_record(r) + rest;
    let tail45 = spec_u64_to_le_bytes(r.size as u64) + r.digest + seq![
        kind_code(archive_kind_of(r.data_type)) as u8,
    ] + spec_u32_to_le_bytes(r.perm) + spec_u64_to_le_bytes(r.uid) + spec_u64_to_le_bytes(r.gid);
    assert(tail45.len() == 45);
    assert(b.take(8) =~= spec_u64_to_le_bytes(pb.len() as u64));
    let plen = spec_u64_from_le_bytes(b.take(8)) as int;
    assert(plen == pb.len());
    let rest1 = b.skip(8);
    assert(rest1 =~= pb + tail45 + rest);
    assert(rest1.take(plen) =~= pb);
    encode_utf8_valid_utf8(r.path);
    encode_utf8_decode_utf8(r.path);
    let rest2 = rest1.skip(plen);
    assert(rest2 =~= tail45 + rest);
    assert(rest2.len() >= 45);
    assert(rest2.take(8) =~= spec_u64_to_le_bytes(r.size as u64));
    let size = spec_u64_from_le_bytes(rest2.take(8));
    assert(size == r.size as u64);
    assert(size <= usize::MAX as u64);
    assert(rest2.subrange(8, 24) =~= r.digest);
    assert(rest2[24] == kind_code(archive_kind_of(r.data_type)) as u8);
    assert(code_entry_kind(rest2[24]) == Some(r.data_type));
    assert(rest2.subrange(25, 29) =~= spec_u32_to_le_bytes(r.perm));
    assert(rest2.subrange(29, 37) =~= spec_u64_to_le_bytes(r.uid));
    assert(rest2.subrange(37, 45) =~= spec_u64_to_le_bytes(r.gid));
    assert(rest2.skip(45) =~= rest);
    let got = dec_record(b)->Some_0;
    assert(got.0 =~= r);
}

/// Decoding the concatenated encodings of the records at positions
/// `[k, len)` gives those records back, whatever follows them.
proof fn lemma_enc_dec_records(s: Seq<RecordV>, k: int, rest: Seq<u8>)
    requires
        0 <= k <= s.len(),
        forall|i: int| 0 <= i < s.len() ==> encodable(#[trigger] s[i]),
    ensures
        dec_records(enc_records_from(s, k) + rest, (s.len() - k) as nat) == Some(
            (s.skip(k), rest),
        ),
    decreases s.len() - k,
{
    if k == s.len() {
        assert(enc_records_from(s, k) + rest =~= rest);
        assert(s.skip(k) =~= Seq::<RecordV>::empty());
    } else {
        assert(enc_records_from(s, k) + rest =~= enc_record(s[k]) + (enc_records_from(s, k + 1)
            + rest));
        lemma_enc_dec_record(s[k], enc_records_from(s, k + 1) + rest);
        lemma_enc_dec_records(s, k + 1, rest);
        assert(seq![s[k]] + s.skip(k + 1) =~= s.skip(k));
    }
}

/// Round-trip: decoding the encoding of any well-formed, encodable tree
/// yields a mapping identical in path set and in every record field — it is
/// the very same record sequence.
pub proof fn lemma_codec_round_trip(s: Seq<RecordV>)
    requires
        wf_tree(s),
        encodable_tree(s),
    ensures
        dec_tree(enc_tree(s)) == Some(s),
{
    lemma_auto_spec_u64_to_from_le_bytes();
    let b = enc_tree(s);
    assert(b.take(8) =~= spec_u64_to_le_bytes(s.len() as u64));
    let n = spec_u64_from_le_bytes(b.take(8));
    assert(n as nat == s.len());
    assert(b.skip(8) =~= enc_records_from(s, 0) + Seq::<u8>::empty());
    lemma_enc_dec_records(s, 0, Seq::empty());
    assert(s.skip(0) =~= s);
}

/// Prefix the accumulated records onto a partial decoding result.
pub open spec fn glue(
    acc: Seq<RecordV>,
    r: Option<(Seq<RecordV>, Seq<u8>)>,
) -> Option<(Seq<RecordV>, Seq<u8>)> {
    match r {
        None => None,
        Some((rs, tail)) => Some((acc + rs, tail)),
    }
}

/// Shifting one decoded record from the partial result into the accumulator
/// keeps the glued result unchanged.
proof fn lemma_glue_step(acc: Seq<RecordV>, r: RecordV, b: Seq<u8>, n: nat)
    ensures
        glue(
            acc,
            match dec_records(b, n) {
                None => None::<(Seq<RecordV>, Seq<u8>)>,
                Some((rs, tail)) => Some((seq![r] + rs, tail)),
            },
        ) == glue(acc.push(r), dec_records(b, n)),
{
    match dec_records(b, n) {
        None => {},
        Some((rs, tail)) => {
            assert(acc + (seq![r] + rs) =~= acc.push(r) + rs);
        },
    }
}

/// Once a decoded path repeats a path already decoded, no completion of the
/// parse can be a well-formed tree.
proof fn lemma_dup_makes_unparseable(acc: Seq<RecordV>, r: RecordV, b: Seq<u8>, n: nat)
    requires
        has_path(acc, r.path),
    ensures
        match (match dec_records(b, n) {
            None => None::<(Seq<RecordV>, Seq<u8>)>,
            Some((rs, tail)) => Some((seq![r] + rs, tail)),
        }) {
            None => true,
            Some((rs, tail)) => !wf_tree(acc + rs),
        },
{
    match dec_records(b, n) {
        None => {},
        Some((rs, tail)) => {
            let full = acc + (seq![r] + rs);
            let a = crate::state::path_index(acc, r.path);
            assert(full[a].path == r.path);
            assert(full[acc.len() as int] == r);
            assert(!wf_tree(full));
        },
    }
}

} // verus!
