//! The piece scheduler's data: one piece being assembled from blocks, the
//! content buffer that verified pieces are committed into, and the final
//! split of the content into the torrent's files.
//!
//! The owning application runs the concurrent loop — spawning participants,
//! draining results, sleeping, retrying — and calls into these state
//! machines for every decision and every byte moved.

use vstd::prelude::*;

use crate::block::{spec_block_size, spec_num_blocks};
use crate::digest::{sha1_matches, sha1_of};
use crate::error::Error;
use crate::piece::spec_piece_length;
use crate::torrent::{
    hashes_wf, lemma_files_length_nonneg_all, lemma_files_length_split, lemma_files_length_unsnoc,
    spec_files_length, spec_total_length, File, Keys, Torrent,
};
use crate::wire;
use crate::wire::BLOCK_SIZE;

verus! {

/// One piece mid-download: the shared work queue of block indices still to
/// fetch, the flags of the blocks already spliced in, and the buffer they
/// land in.
#[derive(Debug)]
pub struct Assembly {
    /// Which piece this round assembles.
    pub piece_index: u32,
    /// The effective length of that piece.
    pub piece_length: u32,
    /// The piece bytes assembled so far, `piece_length` long.
    pub buf: Vec<u8>,
    /// One flag per block: whether it has been spliced into `buf`.
    pub received: Vec<bool>,
    /// Block indices waiting to be fetched; participants take from the
    /// front, and a choked participant puts its block back.
    pub queue: Vec<u32>,
}

impl Assembly {
    /// The shape every assembly keeps: a buffer of exactly `piece_length`
    /// bytes, one flag per block, and only real block indices queued.
    pub open spec fn wf(&self) -> bool {
        &&& 1 <= self.piece_length
        &&& self.buf@.len() == self.piece_length
        &&& self.received@.len() == spec_num_blocks(self.piece_length as int)
        &&& forall|k: int| 0 <= k < self.queue@.len() ==> (#[trigger] self.queue@[k] as int)
            < spec_num_blocks(self.piece_length as int)
    }

    /// A fresh round for piece `piece_index` of `piece_length` bytes: a
    /// zeroed buffer, nothing received, and every block index queued in
    /// order.
    pub fn new(piece_index: u32, piece_length: u32) -> (a: Assembly)
        requires
            1 <= piece_length,
        ensures
            a.wf(),
            a.piece_index == piece_index,
            a.piece_length == piece_length,
            a.queue@.len() == spec_num_blocks(piece_length as int),
            forall|k: int| 0 <= k < a.queue@.len() ==> (#[trigger] a.queue@[k] as int) == k,
            forall|b: int| 0 <= b < a.received@.len() ==> !(#[trigger] a.received@[b]),
            forall|i: int| 0 <= i < a.buf@.len() ==> a.buf@[i] == 0,
    {
        let total_blocks = crate::block::num_blocks(piece_length);
        let buf = wire::zero_vec(piece_length as usize);
        let mut received: Vec<bool> = Vec::new();
        let mut queue: Vec<u32> = Vec::new();
        let mut k: u32 = 0;
        while k < total_blocks
            invariant
                k <= total_blocks,
                received@.len() == k,
                queue@.len() == k,
                forall|b: int| 0 <= b < k as int ==> !(#[trigger] received@[b]),
                forall|b: int| 0 <= b < k as int ==> (#[trigger] queue@[b] as int) == b,
            decreases total_blocks - k,
        {
            received.push(false);
            queue.push(k);
            k = k + 1;
        }
        Assembly { piece_index, piece_length, buf, received, queue }
    }

    /// Takes the next block index off the front of the work queue, if any.
    pub fn take_block(&mut self) -> (r: Option<u32>)
        requires
            old(self).wf(),
        ensures
            final(self).wf(),
            final(self).piece_index == old(self).piece_index,
            final(self).piece_length == old(self).piece_length,
            final(self).buf@ == old(self).buf@,
            final(self).received@ == old(self).received@,
            old(self).queue@.len() == 0 ==> r is None && final(self).queue@ == old(self).queue@,
            old(self).queue@.len() > 0 ==> r == Some(old(self).queue@[0]) && final(self).queue@
                == old(self).queue@.skip(1) && (old(self).queue@[0] as int) < spec_num_blocks(
                old(self).piece_length as int,
            ),
    {
        if self.queue.len() == 0 {
            return None;
        }
        let b = self.queue.remove(0);
        proof {
            assert(old(self).queue@.remove(0) =~= old(self).queue@.skip(1));
        }
        Some(b)
    }

    /// Puts a block index back on the queue, as when its peer was choked
    /// mid-transfer or lost.
    pub fn requeue(&mut self, b: u32)
        requires
            old(self).wf(),
            (b as int) < spec_num_blocks(old(self).piece_length as int),
        ensures
            final(self).wf(),
            final(self).piece_index == old(self).piece_index,
            final(self).piece_length == old(self).piece_length,
            final(self).buf@ == old(self).buf@,
            final(self).received@ == old(self).received@,
            final(self).queue@ == old(self).queue@.push(b),
    {
        self.queue.push(b);
    }

    /// Splices the delivered bytes of block `b` into the buffer at offset
    /// `b * 16384` and marks the block received.
    pub fn accept_block(&mut self, b: u32, data: &[u8])
        requires
            old(self).wf(),
            (b as int) < spec_num_blocks(old(self).piece_length as int),
            data@.len() == spec_block_size(old(self).piece_length as int, b as int),
        ensures
            final(self).wf(),
            final(self).piece_index == old(self).piece_index,
            final(self).piece_length == old(self).piece_length,
            final(self).queue@ == old(self).queue@,
            final(self).received@ == old(self).received@.update(b as int, true),
            final(self).buf@.len() == old(self).buf@.len(),
            final(self).buf@.subrange(
                b as int * (BLOCK_SIZE as int),
                b as int * (BLOCK_SIZE as int) + data@.len(),
            ) == data@,
            forall|i: int| 0 <= i < b as int * (BLOCK_SIZE as int) ==> final(self).buf@[i] == old(
                self,
            ).buf@[i],
            forall|i: int| b as int * (BLOCK_SIZE as int) + data@.len() <= i < old(
                self,
            ).buf@.len() ==> final(self).buf@[i] == old(self).buf@[i],
    {
        proof {
            crate::block::lemma_block_bounds(self.piece_length as int, b as int);
        }
        let at = (b as usize) * (BLOCK_SIZE as usize);
        wire::splice(&mut self.buf, at, data);
        self.received.set(b as usize, true);
    }

    /// Whether every block of the piece has been received.
    pub fn complete(&self) -> (r: bool)
        requires
            self.wf(),
        ensures
            r == (forall|b: int| 0 <= b < self.received@.len() ==> #[trigger] self.received@[b]),
    {
        let mut b: usize = 0;
        while b < self.received.len()
            invariant
                b <= self.received@.len(),
                forall|k: int| 0 <= k < b as int ==> #[trigger] self.received@[k],
            decreases self.received@.len() - b,
        {
            if !self.received[b] {
                return false;
            }
            b = b + 1;
        }
        true
    }
}

/// The whole download: the content buffer, one committed flag per piece,
/// and the expected digests.  A piece is committed only after its SHA-1
/// check, and the well-formedness below carries that fact for every
/// committed piece.
#[derive(Debug)]
pub struct Download {
    /// The content assembled so far, `total` bytes.
    pub content: Vec<u8>,
    /// One flag per piece: whether it has been verified and committed.
    pub committed: Vec<bool>,
    /// The nominal piece length.
    pub plength: usize,
    /// The total content length.
    pub total: usize,
    /// The expected SHA-1 digest of each piece.
    pub hashes: Vec<Vec<u8>>,
}

impl Download {
    /// The shape and the central invariant: every committed piece's bytes
    /// hash to its expected digest.
    pub open spec fn wf(&self) -> bool {
        &&& 1 <= self.plength
        &&& self.content@.len() == self.total
        &&& self.committed@.len() == self.hashes@.len()
        &&& forall|i: int| 0 <= i < self.hashes@.len() ==> (#[trigger] self.hashes@[i])@.len()
            == 20
        &&& forall|i: int| 0 <= i < self.committed@.len() && #[trigger] self.committed@[i] ==> (i
            * self.plength < self.total && sha1_of(
            self.content@.subrange(
                i * self.plength,
                i * self.plength + spec_piece_length(
                    self.plength as int,
                    self.total as int,
                    i,
                ),
            ),
        ) == self.hashes@[i]@)
    }

    /// An empty download for `t`: a zeroed content buffer and no piece
    /// committed.
    pub fn new(t: &Torrent) -> (d: Download)
        requires
            t.info.plength >= 1,
            hashes_wf(t.info.pieces),
            0 <= spec_total_length(t.info.keys) <= usize::MAX,
        ensures
            d.wf(),
            d.plength == t.info.plength,
            d.total == spec_total_length(t.info.keys),
            d.committed@.len() == t.info.pieces.0@.len(),
            forall|i: int| 0 <= i < d.committed@.len() ==> !(#[trigger] d.committed@[i]),
            forall|i: int| 0 <= i < d.hashes@.len() ==> (#[trigger] d.hashes@[i])@
                == t.info.pieces.0@[i]@,
    {
        let total = t.length();
        let content = wire::zero_vec(total);
        let mut committed: Vec<bool> = Vec::new();
        let mut hashes: Vec<Vec<u8>> = Vec::new();
        let mut i: usize = 0;
        while i < t.info.pieces.0.len()
            invariant
                i <= t.info.pieces.0@.len(),
                committed@.len() == i,
                hashes@.len() == i,
                hashes_wf(t.info.pieces),
                forall|k: int| 0 <= k < i as int ==> !(#[trigger] committed@[k]),
                forall|k: int| 0 <= k < i as int ==> (#[trigger] hashes@[k])@
                    == t.info.pieces.0@[k]@,
            decreases t.info.pieces.0@.len() - i,
        {
            committed.push(false);
            hashes.push(vstd::slice::slice_to_vec(t.info.pieces.0[i].as_slice()));
            i = i + 1;
        }
        Download { content, committed, plength: t.info.plength, total, hashes }
    }

    /// Checks an assembled piece against its expected digest and, on a
    /// match, splices it into the content buffer at its piece offset and
    /// marks it committed.  On a mismatch nothing changes and the piece is
    /// for the caller to reschedule.
    pub fn commit_piece(&mut self, i: usize, buf: &Vec<u8>) -> (ok: bool)
        requires
            old(self).wf(),
            (i as int) < old(self).committed@.len(),
            (i as int) * (old(self).plength as int) < old(self).total,
            buf@.len() == spec_piece_length(
                old(self).plength as int,
                old(self).total as int,
                i as int,
            ),
        ensures
            final(self).wf(),
            ok == (sha1_of(buf@) == old(self).hashes@[i as int]@),
            !ok ==> *final(self) == *old(self),
            ok ==> {
                &&& final(self).committed@ == old(self).committed@.update(i as int, true)
                &&& final(self).content@.len() == old(self).content@.len()
                &&& final(self).content@.subrange(
                    i as int * (old(self).plength as int),
                    i as int * (old(self).plength as int) + buf@.len(),
                ) == buf@
                &&& final(self).plength == old(self).plength
                &&& final(self).total == old(self).total
                &&& final(self).hashes@ == old(self).hashes@
            },
    {
        let expected = &self.hashes[i];
        if !sha1_matches(buf.as_slice(), expected.as_slice()) {
            return false;
        }
        let at = i * self.plength;
        proof {
            lemma_piece_fits(self.plength as int, self.total as int, i as int);
        }
        wire::splice(&mut self.content, at, buf.as_slice());
        self.committed.set(i, true);
        proof {
            let p = self.plength as int;
            let total = self.total as int;
            assert(self.content@.subrange(
                i as int * p,
                i as int * p + spec_piece_length(p, total, i as int),
            ) =~= buf@);
            assert forall|j: int|
                0 <= j < self.committed@.len() && #[trigger] self.committed@[j] implies (j * p
                < total && sha1_of(
                self.content@.subrange(j * p, j * p + spec_piece_length(p, total, j)),
            ) == self.hashes@[j]@) by {
                if j != i as int {
                    assert(old(self).committed@[j]);
                    lemma_piece_fits(p, total, j);
                    if j < i as int {
                        lemma_pieces_disjoint(p, total, j, i as int);
                    } else {
                        lemma_pieces_disjoint(p, total, i as int, j);
                    }
                    assert(self.content@.subrange(j * p, j * p + spec_piece_length(p, total, j))
                        =~= old(self).content@.subrange(
                        j * p,
                        j * p + spec_piece_length(p, total, j),
                    ));
                }
            }
        }
        true
    }

    /// Whether every piece has been verified and committed.
    pub fn finished(&self) -> (r: bool)
        requires
            self.wf(),
        ensures
            r == (forall|i: int| 0 <= i < self.committed@.len() ==> #[trigger] self.committed@[i]),
    {
        let mut i: usize = 0;
        while i < self.committed.len()
            invariant
                i <= self.committed@.len(),
                forall|k: int| 0 <= k < i as int ==> #[trigger] self.committed@[k],
            decreases self.committed@.len() - i,
        {
            if !self.committed[i] {
                return false;
            }
            i = i + 1;
        }
        true
    }
}

/// Every committed piece of a well-formed download hashes to its expected
/// digest: SHA-1 of the bytes at `[i * plength, i * plength + piece_length_i)`
/// equals the piece's entry in the hash table.
pub proof fn lemma_committed_pieces_verified(d: Download)
    requires
        d.wf(),
    ensures
        forall|i: int| 0 <= i < d.committed@.len() && #[trigger] d.committed@[i] ==> sha1_of(
            d.content@.subrange(
                i * d.plength,
                i * d.plength + spec_piece_length(d.plength as int, d.total as int, i),
            ),
        ) == d.hashes@[i]@,
{
}

/// A piece that starts inside the content also ends inside it.
proof fn lemma_piece_fits(plength: int, total: int, i: int)
    requires
        plength >= 1,
        0 <= i,
        i * plength < total,
    ensures
        0 <= spec_piece_length(plength, total, i) <= plength,
        i * plength + spec_piece_length(plength, total, i) <= total,
        i * plength >= 0,
{
    assert(i * plength >= 0) by (nonlinear_arith)
        requires
            i >= 0 && plength >= 1,
    ;
}

/// Distinct pieces occupy disjoint spans of the content.
proof fn lemma_pieces_disjoint(plength: int, total: int, i: int, j: int)
    requires
        plength >= 1,
        0 <= i < j,
    ensures
        i * plength + spec_piece_length(plength, total, i) <= j * plength,
{
    assert((i + 1) * plength <= j * plength) by (nonlinear_arith)
        requires
            i + 1 <= j && plength >= 1,
    ;
    assert((i + 1) * plength == i * plength + plength) by (nonlinear_arith);
}

/// The downloaded content with the file layout it splits into.
pub struct Downloaded {
    /// The verified content bytes.
    pub bytes: Vec<u8>,
    /// The files the content divides into, in order.
    pub files: Vec<File>,
}

/// Deep copy of a list of byte strings.
fn copy_byte_lists(v: &Vec<Vec<u8>>) -> (r: Vec<Vec<u8>>)
    ensures
        r@.len() == v@.len(),
        forall|i: int| 0 <= i < v@.len() ==> (#[trigger] r@[i])@ == v@[i]@,
{
    let mut r: Vec<Vec<u8>> = Vec::new();
    let mut i: usize = 0;
    while i < v.len()
        invariant
            i <= v@.len(),
            r@.len() == i,
            forall|k: int| 0 <= k < i as int ==> (#[trigger] r@[k])@ == v@[k]@,
        decreases v@.len() - i,
    {
        r.push(vstd::slice::slice_to_vec(v[i].as_slice()));
        i = i + 1;
    }
    r
}

impl Downloaded {
    /// Packages a finished download of `t`: the content bytes together
    /// with the file list — the single file under the torrent's name, or
    /// the multi-file layout as declared.
    pub fn new(d: Download, t: &Torrent) -> (r: Downloaded)
        requires
            d.wf(),
            forall|i: int| 0 <= i < d.committed@.len() ==> #[trigger] d.committed@[i],
        ensures
            r.bytes@ == d.content@,
            match t.info.keys {
                Keys::SingleFile { length } => r.files@.len() == 1 && r.files@[0].length == length
                    && r.files@[0].path@.len() == 1 && r.files@[0].path@[0]@ == t.info.name@,
                Keys::MultiFile { files } => r.files@.len() == files@.len() && (forall|i: int|
                    0 <= i < files@.len() ==> (#[trigger] r.files@[i]).length == files@[i].length
                        && r.files@[i].path@.len() == files@[i].path@.len() && (forall|j: int|
                        0 <= j < files@[i].path@.len() ==> (#[trigger] r.files@[i].path@[j])@
                            == files@[i].path@[j]@)),
            },
    {
        let files: Vec<File> = match &t.info.keys {
            Keys::SingleFile { length } => {
                let mut path: Vec<Vec<u8>> = Vec::new();
                path.push(vstd::slice::slice_to_vec(t.info.name.as_slice()));
                let mut files: Vec<File> = Vec::new();
                files.push(File { length: *length, path });
                files
            },
            Keys::MultiFile { files } => {
                let mut r: Vec<File> = Vec::new();
                let mut i: usize = 0;
                while i < files.len()
                    invariant
                        i <= files@.len(),
                        r@.len() == i,
                        forall|k: int| 0 <= k < i as int ==> (#[trigger] r@[k]).length
                            == files@[k].length && r@[k].path@.len() == files@[k].path@.len() && (
                        forall|j: int| 0 <= j < files@[k].path@.len() ==> (
                        #[trigger] r@[k].path@[j])@ == files@[k].path@[j]@),
                    decreases files@.len() - i,
                {
                    r.push(File { length: files[i].length, path: copy_byte_lists(&files[i].path) });
                    i = i + 1;
                }
                r
            },
        };
        Downloaded { bytes: d.content, files }
    }
}

/// One file's slice of a finished download.
pub struct DownloadedFile {
    file: File,
    bytes: Vec<u8>,
}

impl DownloadedFile {
    /// The file's declared length, for contracts.
    pub closed spec fn spec_length(&self) -> usize {
        self.file.length
    }

    /// The file's path components, for contracts.
    pub closed spec fn spec_path(&self) -> Seq<Vec<u8>> {
        self.file.path@
    }

    /// The file's bytes, for contracts.
    pub closed spec fn spec_bytes(&self) -> Seq<u8> {
        self.bytes@
    }

    /// The path components of this file.
    pub fn path(&self) -> (p: &Vec<Vec<u8>>)
        ensures
            p@ == self.spec_path(),
    {
        &self.file.path
    }

    /// The bytes of this file.
    pub fn bytes(&self) -> (b: &Vec<u8>)
        ensures
            b@ == self.spec_bytes(),
    {
        &self.bytes
    }
}

/// Walks a finished download file by file, handing out each file's slice
/// of the content.
pub struct DownloadedIter {
    files: Vec<DownloadedFile>,
}

impl DownloadedIter {
    /// The files still to hand out, for contracts.
    pub closed spec fn spec_files(&self) -> Seq<DownloadedFile> {
        self.files@
    }

    /// Splits the content of `d` into its files, in declaration order:
    /// file `k` gets the bytes from the sum of the earlier lengths up to
    /// its own length.
    pub fn new(d: &Downloaded) -> (it: DownloadedIter)
        requires
            spec_files_length(d.files@) <= d.bytes@.len(),
        ensures
            it.spec_files().len() == d.files@.len(),
            forall|k: int| 0 <= k < d.files@.len() ==> {
                &&& (#[trigger] it.spec_files()[k]).spec_length() == d.files@[k].length
                &&& it.spec_files()[k].spec_path().len() == d.files@[k].path@.len()
                &&& (forall|j: int| 0 <= j < d.files@[k].path@.len() ==> (
                #[trigger] it.spec_files()[k].spec_path()[j])@ == d.files@[k].path@[j]@)
                &&& it.spec_files()[k].spec_bytes() == d.bytes@.subrange(
                    spec_files_length(d.files@.take(k)),
                    spec_files_length(d.files@.take(k)) + d.files@[k].length,
                )
            },
    {
        let mut files: Vec<DownloadedFile> = Vec::new();
        let mut offset: usize = 0;
        let mut i: usize = 0;
        let nbytes = d.bytes.len();
        proof {
            lemma_files_length_split(d.files@, 0);
            lemma_files_length_nonneg_all(d.files@);
            assert(d.files@.take(0) =~= Seq::<File>::empty());
        }
        while i < d.files.len()
            invariant
                i <= d.files@.len(),
                files@.len() == i,
                offset == spec_files_length(d.files@.take(i as int)),
                spec_files_length(d.files@) <= d.bytes@.len(),
                d.bytes@.len() <= usize::MAX,
                spec_files_length(d.files@.take(i as int)) + spec_files_length(
                    d.files@.skip(i as int),
                ) == spec_files_length(d.files@),
                forall|j: int| 0 <= j <= d.files@.len() ==> #[trigger] spec_files_length(
                    d.files@.skip(j),
                ) >= 0,
                forall|k: int| 0 <= k < i as int ==> {
                    &&& (#[trigger] files@[k]).spec_length() == d.files@[k].length
                    &&& files@[k].spec_path().len() == d.files@[k].path@.len()
                    &&& (forall|j: int| 0 <= j < d.files@[k].path@.len() ==> (
                    #[trigger] files@[k].spec_path()[j])@ == d.files@[k].path@[j]@)
                    &&& files@[k].spec_bytes() == d.bytes@.subrange(
                        spec_files_length(d.files@.take(k)),
                        spec_files_length(d.files@.take(k)) + d.files@[k].length,
                    )
                },
            decreases d.files@.len() - i,
        {
            proof {
                lemma_files_length_split(d.files@, i + 1);
                lemma_files_length_nonneg_all(d.files@);
                assert(d.files@.skip(i as int).drop_first() =~= d.files@.skip(i + 1));
                assert(spec_files_length(d.files@.skip(i as int)) == d.files@[i as int].length
                    + spec_files_length(d.files@.skip(i + 1)));
                assert(d.files@.take(i + 1).drop_last() =~= d.files@.take(i as int));
                lemma_files_length_unsnoc(d.files@.take(i + 1));
            }
            let flen = d.files[i].length;
            let bytes = vstd::slice::slice_to_vec(
                vstd::slice::slice_subrange(d.bytes.as_slice(), offset, offset + flen),
            );
            let file = File { length: flen, path: copy_byte_lists(&d.files[i].path) };
            files.push(DownloadedFile { file, bytes });
            offset = offset + flen;
            i = i + 1;
        }
        DownloadedIter { files }
    }

    /// Hands out the next file, front to back.
    pub fn next(&mut self) -> (r: Option<DownloadedFile>)
        ensures
            old(self).spec_files().len() == 0 ==> r is None && final(self).spec_files() == old(
                self,
            ).spec_files(),
            old(self).spec_files().len() > 0 ==> {
                &&& final(self).spec_files() == old(self).spec_files().skip(1)
                &&& (r matches Some(f) && f.spec_length() == old(self).spec_files()[0].spec_length()
                    && f.spec_path() == old(self).spec_files()[0].spec_path() && f.spec_bytes()
                    == old(self).spec_files()[0].spec_bytes())
            },
    {
        if self.files.len() == 0 {
            return None;
        }
        let f = self.files.remove(0);
        proof {
            assert(old(self).files@.remove(0) =~= old(self).files@.skip(1));
        }
        Some(f)
    }
}

/// The outcome of one piece assembly round, as the application reports it
/// back to the scheduler: the piece completed and its bytes follow, or all
/// participants ended first and the piece must be retried.
pub enum RoundOutcome {
    /// All blocks arrived; the assembled bytes follow.
    Complete(Vec<u8>),
    /// Participants ran out before the piece was complete.
    Incomplete,
}

/// What the scheduler decides after a round: commit happened and the next
/// piece can start; or the piece goes back into the pending list; or the
/// download failed because no peer holds the piece.
pub enum RoundDecision {
    /// The piece verified and was committed.
    Committed,
    /// The piece was put back to be retried.
    Requeued(Error),
    /// No surviving peer claims the piece: the download fails.
    Fatal(Error),
}

/// Settles one finished assembly round: a complete piece that hashes right
/// is committed; a complete piece that does not, and an incomplete round,
/// put the piece back into `pending` — unless no surviving peer claims it,
/// which is fatal.
pub fn settle_round(
    d: &mut Download,
    pending: &mut Vec<crate::piece::Piece>,
    piece: crate::piece::Piece,
    outcome: RoundOutcome,
) -> (r: RoundDecision)
    requires
        old(d).wf(),
        (piece.spec_index() as int) < old(d).committed@.len(),
        (piece.spec_index() as int) * (old(d).plength as int) < old(d).total,
        piece.spec_length() == spec_piece_length(
            old(d).plength as int,
            old(d).total as int,
            piece.spec_index() as int,
        ),
        piece.spec_hash() == old(d).hashes@[piece.spec_index() as int]@,
    ensures
        final(d).wf(),
        (outcome matches RoundOutcome::Complete(buf) && buf@.len() == piece.spec_length()
            && sha1_of(buf@) == piece.spec_hash()) ==> r is Committed,
        (outcome matches RoundOutcome::Complete(buf) && !(buf@.len() == piece.spec_length()
            && sha1_of(buf@) == piece.spec_hash()) && piece.spec_peers().len() > 0) ==> (r matches
            RoundDecision::Requeued(e) && (e == Error::PieceHashMismatch || e == Error::PeerIo)),
        (outcome is Incomplete && piece.spec_peers().len() > 0) ==> (r matches
            RoundDecision::Requeued(e) && e == Error::PeerIo),
        match r {
            RoundDecision::Committed => {
                &&& outcome matches RoundOutcome::Complete(buf) && buf@.len()
                    == piece.spec_length() && sha1_of(buf@) == piece.spec_hash()
                &&& final(d).committed@ == old(d).committed@.update(piece.spec_index() as int, true)
                &&& final(pending)@ == old(pending)@
            },
            RoundDecision::Requeued(e) => {
                &&& piece.spec_peers().len() > 0
                &&& final(pending)@ == old(pending)@.push(piece)
                &&& *final(d) == *old(d)
                &&& (e == Error::PieceHashMismatch || e == Error::PeerIo)
            },
            RoundDecision::Fatal(e) => {
                &&& piece.spec_peers().len() == 0
                &&& final(pending)@ == old(pending)@
                &&& *final(d) == *old(d)
                &&& e == Error::NoPeersForPiece
            },
        },
{
    match outcome {
        RoundOutcome::Complete(buf) => {
            if buf.len() != piece.length() {
                if piece.peers().len() == 0 {
                    return RoundDecision::Fatal(Error::NoPeersForPiece);
                }
                pending.push(piece);
                return RoundDecision::Requeued(Error::PeerIo);
            }
            let index = piece.index();
            if d.commit_piece(index, &buf) {
                RoundDecision::Committed
            } else {
                if piece.peers().len() == 0 {
                    return RoundDecision::Fatal(Error::NoPeersForPiece);
                }
                pending.push(piece);
                RoundDecision::Requeued(Error::PieceHashMismatch)
            }
        },
        RoundOutcome::Incomplete => {
            if piece.peers().len() == 0 {
                return RoundDecision::Fatal(Error::NoPeersForPiece);
            }
            pending.push(piece);
            RoundDecision::Requeued(Error::PeerIo)
        },
    }
}

} // verus!
