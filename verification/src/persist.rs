//! Persistence of the tree as a single opaque blob: the dense binary
//! encoding, compressed with xz. Reading or writing the state file itself is
//! the caller's task; this module only produces and consumes the blob bytes.

use std::io::Read;
use std::io::Write;

use vstd::prelude::*;

use crate::codec::{dec_tree, enc_tree, encodable_tree, lemma_codec_round_trip};
use crate::record::{RecordV, TarplyError};
use crate::state::{FileTree, wf_tree};

verus! {

/// The xz stream the compressor produces for the given bytes, at the preset
/// this module always uses.
pub uninterp spec fn xz_of(data: Seq<u8>) -> Seq<u8>;

/// Relies on xz's write::XzEncoder (via liblzma) at a fixed preset: the
/// compressed stream is a function of the input bytes alone.
#[verifier::external_body]
fn xz_compress(data: &Vec<u8>) -> (r: Vec<u8>)
    ensures
        r@ == xz_of(data@),
{
    let mut enc = xz::write::XzEncoder::new(Vec::new(), 9);
    enc.write_all(data.as_slice()).expect("compression failed");
    enc.finish().expect("compression failed")
}

/// The bytes an xz stream decompresses to, or nothing when the bytes are not
/// a well-formed xz stream.
pub uninterp spec fn xz_dec_of(data: Seq<u8>) -> Option<Seq<u8>>;

/// Relies on xz's read::XzDecoder (via liblzma): decompression is a
/// deterministic function of the input bytes, fails exactly on bytes that
/// are not a well-formed xz stream, and is lossless, so a stream the
/// encoder produced decodes to exactly the bytes that were compressed.
#[verifier::external_body]
fn xz_decompress(data: &Vec<u8>) -> (r: Result<Vec<u8>, TarplyError>)
    ensures
        r matches Ok(d) ==> xz_dec_of(data@) == Some(d@),
        r is Ok <==> xz_dec_of(data@) is Some,
        r matches Ok(d) ==> forall|s: Seq<u8>| data@ == #[trigger] xz_of(s) ==> d@ == s,
        forall|s: Seq<u8>| data@ == #[trigger] xz_of(s) ==> r is Ok,
{
    let mut dec = xz::read::XzDecoder::new(data.as_slice());
    let mut out = Vec::new();
    match dec.read_to_end(&mut out) {
        Ok(_) => Ok(out),
        Err(_) => Err(TarplyError::CorruptState),
    }
}

impl FileTree {
    /// The opaque blob to be written as the whole state file: the tree's
    /// encoding, compressed.
    pub fn export(&self) -> (r: Vec<u8>)
        ensures
            r@ == xz_of(enc_tree(self@)),
    {
        let raw = self.encode();
        xz_compress(&raw)
    }

    /// Rebuild the tree from a state-file blob. Any decompression or decode
    /// failure is fatal: there is no fallback to an empty tree. Success
    /// happens exactly when the blob decompresses to a valid encoding of a
    /// well-formed tree, and a blob that `export` produced for a
    /// well-formed, encodable tree always comes back as exactly that tree.
    pub fn import(blob: &Vec<u8>) -> (r: Result<FileTree, TarplyError>)
        ensures
            r matches Ok(t) ==> wf_tree(t@),
            r matches Err(e) ==> e == TarplyError::CorruptState,
            r is Ok <==> (xz_dec_of(blob@) is Some && dec_tree(xz_dec_of(blob@)->Some_0)
                is Some),
            r matches Ok(t) ==> dec_tree(xz_dec_of(blob@)->Some_0) == Some(t@),
            forall|s: Seq<RecordV>|
                (wf_tree(s) && encodable_tree(s) && blob@ == #[trigger] xz_of(enc_tree(s)))
                    ==> (r matches Ok(t) && t@ == s),
    {
        let raw = match xz_decompress(blob) {
            Ok(d) => d,
            Err(e) => {
                proof {
                    assert forall|s: Seq<RecordV>|
                        (wf_tree(s) && encodable_tree(s) && blob@ == #[trigger] xz_of(
                            enc_tree(s),
                        )) implies false by {}
                }
                return Err(TarplyError::CorruptState);
            },
        };
        match Self::decode(&raw) {
            Some(t) => {
                proof {
                    assert forall|s: Seq<RecordV>|
                        (wf_tree(s) && encodable_tree(s) && blob@ == #[trigger] xz_of(
                            enc_tree(s),
                        )) implies t@ == s by {
                        assert(raw@ == enc_tree(s));
                        lemma_codec_round_trip(s);
                    }
                }
                Ok(t)
            },
            None => {
                proof {
                    assert forall|s: Seq<RecordV>|
                        (wf_tree(s) && encodable_tree(s) && blob@ == #[trigger] xz_of(
                            enc_tree(s),
                        )) implies false by {
                        assert(raw@ == enc_tree(s));
                        lemma_codec_round_trip(s);
                    }
                }
                Err(TarplyError::CorruptState)
            },
        }
    }
}

} // verus!
