//! The metainfo of a torrent: announce URL, content name, piece table and
//! file layout, with the canonical bencoding of the `info` dictionary and
//! the SHA-1 info-hash derived from it.

use vstd::prelude::*;

use crate::bencode;
use crate::bencode::{
    spec_enc_bytes, spec_enc_int, spec_parse_bytestring, spec_parse_int, spec_skip_value,
};
use crate::error::Error;

verus! {

/// The mathematical image of a `File`: its length and path components.
pub struct FileView {
    pub length: int,
    pub path: Seq<Seq<u8>>,
}

/// The mathematical image of `Keys`.
pub enum KeysView {
    Single { length: int },
    Multi { files: Seq<FileView> },
}

/// The mathematical image of an `Info`.
pub struct InfoView {
    pub name: Seq<u8>,
    pub plength: int,
    pub pieces: Seq<Seq<u8>>,
    pub keys: KeysView,
}

/// The mathematical image of a `Torrent`.
pub struct TorrentView {
    pub announce: Seq<u8>,
    pub info: InfoView,
}

/// A parsed `.torrent` metainfo file.
#[derive(Debug, Clone)]
pub struct Torrent {
    /// The tracker announce URL, as the raw bytes of the metainfo.
    pub announce: Vec<u8>,
    /// The `info` dictionary.
    pub info: Info,
}

/// The `info` dictionary of a metainfo file.
#[derive(Debug, Clone)]
pub struct Info {
    /// Suggested name to save the file or directory as.
    pub name: Vec<u8>,
    /// Number of bytes of each piece but possibly the last.
    pub plength: usize,
    /// One 20-byte SHA-1 digest per piece.
    pub pieces: Hashes,
    /// Single-file or multi-file layout.
    pub keys: Keys,
}

/// The two file layouts a torrent can describe: one file of a given length,
/// or a directory of files.
#[derive(Debug, Clone)]
pub enum Keys {
    SingleFile { length: usize },
    MultiFile { files: Vec<File> },
}

/// One file of a multi-file torrent.
#[derive(Debug, Clone)]
pub struct File {
    /// Length of the file in bytes.
    pub length: usize,
    /// Path components, each a raw byte string.
    pub path: Vec<Vec<u8>>,
}

/// The piece hash table: a sequence of 20-byte SHA-1 digests.
#[derive(Debug, Clone, PartialEq, Eq)]
pub struct Hashes(pub Vec<Vec<u8>>);

/// Every digest of the table is exactly 20 bytes.
pub open spec fn hashes_wf(h: Hashes) -> bool {
    forall|i: int| 0 <= i < h.0@.len() ==> (#[trigger] h.0@[i])@.len() == 20
}

/// The concatenation of the digests of the table, as it stands in the
/// `pieces` field of the metainfo.
pub open spec fn spec_hashes_bytes(hs: Seq<Vec<u8>>) -> Seq<u8>
    decreases hs.len(),
{
    if hs.len() == 0 {
        Seq::empty()
    } else {
        hs[0]@ + spec_hashes_bytes(hs.drop_first())
    }
}

/// The concatenated digests of a non-empty table end with its last digest.
pub proof fn lemma_hashes_bytes_unsnoc(hs: Seq<Vec<u8>>)
    requires
        hs.len() > 0,
    ensures
        spec_hashes_bytes(hs) == spec_hashes_bytes(hs.drop_last()) + hs.last()@,
    decreases hs.len(),
{
    if hs.len() == 1 {
        assert(hs.drop_first() =~= Seq::<Vec<u8>>::empty());
        assert(hs.drop_last() =~= Seq::<Vec<u8>>::empty());
        assert(spec_hashes_bytes(hs) =~= spec_hashes_bytes(hs.drop_last()) + hs.last()@);
    } else {
        lemma_hashes_bytes_unsnoc(hs.drop_first());
        assert(hs.drop_last().drop_first() =~= hs.drop_first().drop_last());
        assert(hs.drop_first().last() == hs.last());
        assert(spec_hashes_bytes(hs) =~= spec_hashes_bytes(hs.drop_last()) + hs.last()@);
    }
}

/// A well-formed table of `n` digests concatenates to `20 * n` bytes.
pub proof fn lemma_hashes_bytes_len(hs: Seq<Vec<u8>>)
    requires
        forall|i: int| 0 <= i < hs.len() ==> (#[trigger] hs[i])@.len() == 20,
    ensures
        spec_hashes_bytes(hs).len() == 20 * hs.len(),
    decreases hs.len(),
{
    if hs.len() > 0 {
        lemma_hashes_bytes_len(hs.drop_first());
    }
}

/// The total content length of a file layout.
pub open spec fn spec_files_length(files: Seq<File>) -> int
    decreases files.len(),
{
    if files.len() == 0 {
        0int
    } else {
        files[0].length + spec_files_length(files.drop_first())
    }
}

/// The total content length a metainfo describes.
pub open spec fn spec_total_length(keys: Keys) -> int {
    match keys {
        Keys::SingleFile { length } => length as int,
        Keys::MultiFile { files } => spec_files_length(files@),
    }
}

impl Torrent {
    /// The number of content bytes this torrent describes: the single file's
    /// length, or the sum over all files.
    pub fn length(&self) -> (n: usize)
        requires
            spec_total_length(self.info.keys) <= usize::MAX,
        ensures
            n == spec_total_length(self.info.keys),
    {
        match &self.info.keys {
            Keys::SingleFile { length } => *length,
            Keys::MultiFile { files } => {
                let mut n: usize = 0;
                let mut i: usize = 0;
                proof {
                    lemma_files_length_split(files@, 0);
                    lemma_files_length_nonneg_all(files@);
                }
                while i < files.len()
                    invariant
                        i <= files@.len(),
                        n == spec_files_length(files@.take(i as int)),
                        spec_files_length(files@) <= usize::MAX,
                        spec_files_length(files@.take(i as int)) + spec_files_length(
                            files@.skip(i as int),
                        ) == spec_files_length(files@),
                        forall|j: int| 0 <= j <= files@.len() ==> #[trigger] spec_files_length(
                            files@.skip(j),
                        ) >= 0,
                    decreases files@.len() - i,
                {
                    proof {
                        lemma_files_length_split(files@, i + 1);
                        lemma_files_length_nonneg_all(files@);
                        assert(files@.skip(i as int).drop_first() =~= files@.skip(i + 1));
                        assert(spec_files_length(files@.skip(i as int)) == files@[i as int].length
                            + spec_files_length(files@.skip(i + 1)));
                        assert(files@.take(i + 1).drop_last() =~= files@.take(i as int));
                        lemma_files_length_unsnoc(files@.take(i + 1));
                    }
                    n = n + files[i].length;
                    i = i + 1;
                }
                proof {
                    assert(files@.take(files@.len() as int) =~= files@);
                }
                n
            },
        }
    }
}

/// The sum over a file list splits at any index.
pub proof fn lemma_files_length_split(files: Seq<File>, i: int)
    requires
        0 <= i <= files.len(),
    ensures
        spec_files_length(files.take(i)) + spec_files_length(files.skip(i)) == spec_files_length(
            files,
        ),
    decreases i,
{
    if i == 0 {
        assert(files.take(0) =~= Seq::<File>::empty());
        assert(files.skip(0) =~= files);
    } else {
        lemma_files_length_split(files.drop_first(), i - 1);
        assert(files.take(i).drop_first() =~= files.drop_first().take(i - 1));
        assert(files.skip(i) =~= files.drop_first().skip(i - 1));
    }
}

/// The sum over a non-empty file list ends with its last element.
pub proof fn lemma_files_length_unsnoc(files: Seq<File>)
    requires
        files.len() > 0,
    ensures
        spec_files_length(files) == spec_files_length(files.drop_last()) + files.last().length,
    decreases files.len(),
{
    if files.len() == 1 {
        assert(files.drop_first() =~= Seq::<File>::empty());
        assert(files.drop_last() =~= Seq::<File>::empty());
    } else {
        lemma_files_length_unsnoc(files.drop_first());
        assert(files.drop_last().drop_first() =~= files.drop_first().drop_last());
        assert(files.drop_first().last() == files.last());
    }
}

/// File-list sums are never negative.
pub proof fn lemma_files_length_nonneg_all(files: Seq<File>)
    ensures
        forall|j: int| 0 <= j <= files.len() ==> #[trigger] spec_files_length(files.skip(j)) >= 0,
{
    assert forall|j: int| 0 <= j <= files.len() implies #[trigger] spec_files_length(files.skip(j))
        >= 0 by {
        lemma_files_length_nonneg(files.skip(j));
    }
}

/// A file-list sum is never negative.
pub proof fn lemma_files_length_nonneg(files: Seq<File>)
    ensures
        spec_files_length(files) >= 0,
    decreases files.len(),
{
    if files.len() > 0 {
        lemma_files_length_nonneg(files.drop_first());
    }
}


impl View for File {
    type V = FileView;

    open spec fn view(&self) -> FileView {
        FileView { length: self.length as int, path: self.path@.map_values(|c: Vec<u8>| c@) }
    }
}

impl View for Keys {
    type V = KeysView;

    open spec fn view(&self) -> KeysView {
        match self {
            Keys::SingleFile { length } => KeysView::Single { length: *length as int },
            Keys::MultiFile { files } => KeysView::Multi {
                files: files@.map_values(|f: File| f@),
            },
        }
    }
}

impl View for Info {
    type V = InfoView;

    open spec fn view(&self) -> InfoView {
        InfoView {
            name: self.name@,
            plength: self.plength as int,
            pieces: self.pieces.0@.map_values(|h: Vec<u8>| h@),
            keys: self.keys@,
        }
    }
}

impl View for Torrent {
    type V = TorrentView;

    open spec fn view(&self) -> TorrentView {
        TorrentView { announce: self.announce@, info: self.info@ }
    }
}

/// The ASCII bytes of the metainfo key `"announce"`.
pub open spec fn key_announce() -> Seq<u8> {
    seq![97u8, 110, 110, 111, 117, 110, 99, 101]
}

/// The ASCII bytes of the metainfo key `"info"`.
pub open spec fn key_info() -> Seq<u8> {
    seq![105u8, 110, 102, 111]
}

/// The ASCII bytes of the metainfo key `"name"`.
pub open spec fn key_name() -> Seq<u8> {
    seq![110u8, 97, 109, 101]
}

/// The ASCII bytes of the metainfo key `"piece length"`.
pub open spec fn key_piece_length() -> Seq<u8> {
    seq![112u8, 105, 101, 99, 101, 32, 108, 101, 110, 103, 116, 104]
}

/// The ASCII bytes of the metainfo key `"pieces"`.
pub open spec fn key_pieces() -> Seq<u8> {
    seq![112u8, 105, 101, 99, 101, 115]
}

/// The ASCII bytes of the metainfo key `"length"`.
pub open spec fn key_length() -> Seq<u8> {
    seq![108u8, 101, 110, 103, 116, 104]
}

/// The ASCII bytes of the metainfo key `"files"`.
pub open spec fn key_files() -> Seq<u8> {
    seq![102u8, 105, 108, 101, 115]
}

/// The ASCII bytes of the metainfo key `"path"`.
pub open spec fn key_path() -> Seq<u8> {
    seq![112u8, 97, 116, 104]
}

/// The concatenation of the digests, as the `pieces` value holds them.
pub open spec fn spec_concat_pieces(ps: Seq<Seq<u8>>) -> Seq<u8>
    decreases ps.len(),
{
    if ps.len() == 0 {
        Seq::empty()
    } else {
        ps[0] + spec_concat_pieces(ps.drop_first())
    }
}

/// Splits a byte string into its 20-byte groups.
pub open spec fn spec_split_pieces(b: Seq<u8>) -> Seq<Seq<u8>> {
    Seq::new((b.len() / 20) as nat, |k: int| b.subrange(20 * k, 20 * k + 20))
}

/// The bounds under which an info dictionary can be canonically encoded
/// and parsed back: every number fits the integer frames, every digest is
/// 20 bytes, and the byte strings fit an allocation.
pub open spec fn info_view_wf(iv: InfoView) -> bool {
    &&& 1 <= iv.plength <= i64::MAX
    &&& iv.plength <= usize::MAX
    &&& iv.name.len() <= usize::MAX
    &&& forall|k: int| 0 <= k < iv.pieces.len() ==> (#[trigger] iv.pieces[k]).len() == 20
    &&& 20 * iv.pieces.len() <= usize::MAX
    &&& match iv.keys {
        KeysView::Single { length } => 0 <= length <= i64::MAX && length <= usize::MAX,
        KeysView::Multi { files } => forall|k: int| 0 <= k < files.len() ==> {
            &&& 0 <= (#[trigger] files[k]).length <= i64::MAX
            &&& files[k].length <= usize::MAX
            &&& forall|j: int| 0 <= j < files[k].path.len() ==> (#[trigger] files[k].path[j]).len()
                <= usize::MAX
        },
    }
}

/// The canonical image of a `path` list: the components back to back.
pub open spec fn spec_enc_path_items(ps: Seq<Seq<u8>>) -> Seq<u8>
    decreases ps.len(),
{
    if ps.len() == 0 {
        Seq::empty()
    } else {
        spec_enc_bytes(ps[0]) + spec_enc_path_items(ps.drop_first())
    }
}

/// The canonical image of one file dictionary: keys `length` and `path`
/// in sorted order.
pub open spec fn spec_enc_file(f: FileView) -> Seq<u8> {
    seq![100u8] + spec_enc_bytes(key_length()) + spec_enc_int(f.length) + spec_enc_bytes(key_path())
        + seq![108u8] + spec_enc_path_items(f.path) + seq![101u8] + seq![101u8]
}

/// The canonical image of the `files` list entries.
pub open spec fn spec_enc_files_items(fs: Seq<FileView>) -> Seq<u8>
    decreases fs.len(),
{
    if fs.len() == 0 {
        Seq::empty()
    } else {
        spec_enc_file(fs[0]) + spec_enc_files_items(fs.drop_first())
    }
}

/// The canonical image of an info dictionary: its keys in sorted order —
/// `files` or `length` first, then `name`, `piece length` and `pieces` —
/// with canonical integers and length prefixes.
pub open spec fn spec_enc_info(iv: InfoView) -> Seq<u8> {
    let keys_part = match iv.keys {
        KeysView::Single { length } => spec_enc_bytes(key_length()) + spec_enc_int(length),
        KeysView::Multi { files } => spec_enc_bytes(key_files()) + seq![108u8]
            + spec_enc_files_items(files) + seq![101u8],
    };
    seq![100u8] + keys_part + spec_enc_bytes(key_name()) + spec_enc_bytes(iv.name)
        + spec_enc_bytes(key_piece_length()) + spec_enc_int(iv.plength) + spec_enc_bytes(
        key_pieces(),
    ) + spec_enc_bytes(spec_concat_pieces(iv.pieces)) + seq![101u8]
}


/// The parsed form of a `path` list's items: each component a byte
/// string, up to the closing `e`.
pub open spec fn spec_parse_path_items(s: Seq<u8>, i: int, acc: Seq<Seq<u8>>) -> Option<
    (Seq<Seq<u8>>, int),
>
    decreases s.len() - i,
{
    if i < 0 || i >= s.len() {
        None
    } else if s[i] == 101 {
        Some((acc, i + 1))
    } else {
        match spec_parse_bytestring(s, i) {
            None => None,
            Some(p) => {
                if p.1 <= i || p.1 > s.len() {
                    None
                } else {
                    spec_parse_path_items(s, p.1, acc.push(p.0))
                }
            },
        }
    }
}

/// The parsed form of one file dictionary's entries: a `length` integer
/// and a `path` list, with unknown keys skipped and duplicates refused.
pub open spec fn spec_parse_file_entries(
    s: Seq<u8>,
    i: int,
    length: Option<int>,
    path: Option<Seq<Seq<u8>>>,
) -> Option<(FileView, int)>
    decreases s.len() - i,
{
    if i < 0 || i >= s.len() {
        None
    } else if s[i] == 101 {
        match (length, path) {
            (Some(l), Some(p)) => Some((FileView { length: l, path: p }, i + 1)),
            _ => None,
        }
    } else {
        match spec_parse_bytestring(s, i) {
            None => None,
            Some(kp) => {
                let key = kp.0;
                let e = kp.1;
                if e <= i || e > s.len() {
                    None
                } else if key == key_length() {
                    if length is Some {
                        None
                    } else {
                        match spec_parse_int(s, e) {
                            None => None,
                            Some(vp) => {
                                if vp.0 < 0 || vp.0 > usize::MAX || vp.1 <= e || vp.1 > s.len() {
                                    None
                                } else {
                                    spec_parse_file_entries(s, vp.1, Some(vp.0), path)
                                }
                            },
                        }
                    }
                } else if key == key_path() {
                    if path is Some || e >= s.len() || s[e] != 108 {
                        None
                    } else {
                        match spec_parse_path_items(s, e + 1, Seq::empty()) {
                            None => None,
                            Some(pp) => {
                                if pp.1 <= e || pp.1 > s.len() {
                                    None
                                } else {
                                    spec_parse_file_entries(s, pp.1, length, Some(pp.0))
                                }
                            },
                        }
                    }
                } else {
                    match spec_skip_value(s, e) {
                        None => None,
                        Some(e2) => {
                            if e2 <= i || e2 > s.len() {
                                None
                            } else {
                                spec_parse_file_entries(s, e2, length, path)
                            }
                        },
                    }
                }
            },
        }
    }
}

/// The parsed form of the `files` list's items: one file dictionary per
/// item, up to the closing `e`.
pub open spec fn spec_parse_files_items(s: Seq<u8>, i: int, acc: Seq<FileView>) -> Option<
    (Seq<FileView>, int),
>
    decreases s.len() - i,
{
    if i < 0 || i >= s.len() {
        None
    } else if s[i] == 101 {
        Some((acc, i + 1))
    } else if s[i] == 100 {
        match spec_parse_file_entries(s, i + 1, None, None) {
            None => None,
            Some(fp) => {
                if fp.1 <= i || fp.1 > s.len() {
                    None
                } else {
                    spec_parse_files_items(s, fp.1, acc.push(fp.0))
                }
            },
        }
    } else {
        None
    }
}

/// The parsed form of the info dictionary's entries: `name`, `piece
/// length`, `pieces`, and exactly one of `length` or `files`; unknown keys
/// skipped, duplicates refused, every field required.
pub open spec fn spec_parse_info_entries(
    s: Seq<u8>,
    i: int,
    name: Option<Seq<u8>>,
    plength: Option<int>,
    pieces: Option<Seq<Seq<u8>>>,
    keys: Option<KeysView>,
) -> Option<(InfoView, int)>
    decreases s.len() - i,
{
    if i < 0 || i >= s.len() {
        None
    } else if s[i] == 101 {
        match (name, plength, pieces, keys) {
            (Some(n), Some(pl), Some(ps), Some(k)) => Some(
                (InfoView { name: n, plength: pl, pieces: ps, keys: k }, i + 1),
            ),
            _ => None,
        }
    } else {
        match spec_parse_bytestring(s, i) {
            None => None,
            Some(kp) => {
                let key = kp.0;
                let e = kp.1;
                if e <= i || e > s.len() {
                    None
                } else if key == key_name() {
                    if name is Some {
                        None
                    } else {
                        match spec_parse_bytestring(s, e) {
                            None => None,
                            Some(vp) => {
                                if vp.1 <= e || vp.1 > s.len() {
                                    None
                                } else {
                                    spec_parse_info_entries(s, vp.1, Some(vp.0), plength, pieces, keys)
                                }
                            },
                        }
                    }
                } else if key == key_piece_length() {
                    if plength is Some {
                        None
                    } else {
                        match spec_parse_int(s, e) {
                            None => None,
                            Some(vp) => {
                                if vp.0 < 1 || vp.0 > usize::MAX || vp.1 <= e || vp.1 > s.len() {
                                    None
                                } else {
                                    spec_parse_info_entries(s, vp.1, name, Some(vp.0), pieces, keys)
                                }
                            },
                        }
                    }
                } else if key == key_pieces() {
                    if pieces is Some {
                        None
                    } else {
                        match spec_parse_bytestring(s, e) {
                            None => None,
                            Some(vp) => {
                                if vp.0.len() % 20 != 0 || vp.1 <= e || vp.1 > s.len() {
                                    None
                                } else {
                                    spec_parse_info_entries(
                                        s,
                                        vp.1,
                                        name,
                                        plength,
                                        Some(spec_split_pieces(vp.0)),
                                        keys,
                                    )
                                }
                            },
                        }
                    }
                } else if key == key_length() {
                    if keys is Some {
                        None
                    } else {
                        match spec_parse_int(s, e) {
                            None => None,
                            Some(vp) => {
                                if vp.0 < 0 || vp.0 > usize::MAX || vp.1 <= e || vp.1 > s.len() {
                                    None
                                } else {
                                    spec_parse_info_entries(
                                        s,
                                        vp.1,
                                        name,
                                        plength,
                                        pieces,
                                        Some(KeysView::Single { length: vp.0 }),
                                    )
                                }
                            },
                        }
                    }
                } else if key == key_files() {
                    if keys is Some || e >= s.len() || s[e] != 108 {
                        None
                    } else {
                        match spec_parse_files_items(s, e + 1, Seq::empty()) {
                            None => None,
                            Some(fp) => {
                                if fp.1 <= e || fp.1 > s.len() {
                                    None
                                } else {
                                    spec_parse_info_entries(
                                        s,
                                        fp.1,
                                        name,
                                        plength,
                                        pieces,
                                        Some(KeysView::Multi { files: fp.0 }),
                                    )
                                }
                            },
                        }
                    }
                } else {
                    match spec_skip_value(s, e) {
                        None => None,
                        Some(e2) => {
                            if e2 <= i || e2 > s.len() {
                                None
                            } else {
                                spec_parse_info_entries(s, e2, name, plength, pieces, keys)
                            }
                        },
                    }
                }
            },
        }
    }
}

/// The parsed form of an info dictionary.
pub open spec fn spec_parse_info(s: Seq<u8>, i: int) -> Option<(InfoView, int)> {
    if 0 <= i < s.len() && s[i] == 100 {
        spec_parse_info_entries(s, i + 1, None, None, None, None)
    } else {
        None
    }
}

/// The parsed form of the top-level dictionary's entries: `announce` and
/// `info`, unknown keys skipped, duplicates refused, both required.
pub open spec fn spec_parse_torrent_entries(
    s: Seq<u8>,
    i: int,
    announce: Option<Seq<u8>>,
    info: Option<InfoView>,
) -> Option<(TorrentView, int)>
    decreases s.len() - i,
{
    if i < 0 || i >= s.len() {
        None
    } else if s[i] == 101 {
        match (announce, info) {
            (Some(a), Some(iv)) => Some((TorrentView { announce: a, info: iv }, i + 1)),
            _ => None,
        }
    } else {
        match spec_parse_bytestring(s, i) {
            None => None,
            Some(kp) => {
                let key = kp.0;
                let e = kp.1;
                if e <= i || e > s.len() {
                    None
                } else if key == key_announce() {
                    if announce is Some {
                        None
                    } else {
                        match spec_parse_bytestring(s, e) {
                            None => None,
                            Some(vp) => {
                                if vp.1 <= e || vp.1 > s.len() {
                                    None
                                } else {
                                    spec_parse_torrent_entries(s, vp.1, Some(vp.0), info)
                                }
                            },
                        }
                    }
                } else if key == key_info() {
                    if info is Some {
                        None
                    } else {
                        match spec_parse_info(s, e) {
                            None => None,
                            Some(ip) => {
                                if ip.1 <= e || ip.1 > s.len() {
                                    None
                                } else {
                                    spec_parse_torrent_entries(s, ip.1, announce, Some(ip.0))
                                }
                            },
                        }
                    }
                } else {
                    match spec_skip_value(s, e) {
                        None => None,
                        Some(e2) => {
                            if e2 <= i || e2 > s.len() {
                                None
                            } else {
                                spec_parse_torrent_entries(s, e2, announce, info)
                            }
                        },
                    }
                }
            },
        }
    }
}

/// The parsed form of a whole metainfo file: a top-level dictionary with
/// nothing after it.
pub open spec fn spec_parse_torrent(s: Seq<u8>) -> Option<TorrentView> {
    if s.len() >= 1 && s[0] == 100 {
        match spec_parse_torrent_entries(s, 1, None, None) {
            None => None,
            Some(tp) => {
                if tp.1 == s.len() {
                    Some(tp.0)
                } else {
                    None
                }
            },
        }
    } else {
        None
    }
}


/// The image of an optional byte string under `@`.
pub open spec fn view_opt_bytes(o: Option<Vec<u8>>) -> Option<Seq<u8>> {
    match o {
        Some(v) => Some(v@),
        None => None,
    }
}

/// The image of an optional length under `as int`.
pub open spec fn view_opt_len(o: Option<usize>) -> Option<int> {
    match o {
        Some(v) => Some(v as int),
        None => None,
    }
}

/// The image of an optional list of byte strings under `@`.
pub open spec fn view_opt_lists(o: Option<Vec<Vec<u8>>>) -> Option<Seq<Seq<u8>>> {
    match o {
        Some(v) => Some(v@.map_values(|c: Vec<u8>| c@)),
        None => None,
    }
}

/// The image of an optional file layout under `@`.
pub open spec fn view_opt_keys(o: Option<Keys>) -> Option<KeysView> {
    match o {
        Some(k) => Some(k@),
        None => None,
    }
}

/// Builds the bytes of `"announce"`.
fn make_key_announce() -> (v: Vec<u8>)
    ensures
        v@ == key_announce(),
{
    let mut v: Vec<u8> = Vec::new();
    v.push(97);
    v.push(110);
    v.push(110);
    v.push(111);
    v.push(117);
    v.push(110);
    v.push(99);
    v.push(101);
    assert(v@ =~= key_announce());
    v
}

/// Builds the bytes of `"info"`.
fn make_key_info() -> (v: Vec<u8>)
    ensures
        v@ == key_info(),
{
    let mut v: Vec<u8> = Vec::new();
    v.push(105);
    v.push(110);
    v.push(102);
    v.push(111);
    assert(v@ =~= key_info());
    v
}

/// Builds the bytes of `"name"`.
fn make_key_name() -> (v: Vec<u8>)
    ensures
        v@ == key_name(),
{
    let mut v: Vec<u8> = Vec::new();
    v.push(110);
    v.push(97);
    v.push(109);
    v.push(101);
    assert(v@ =~= key_name());
    v
}

/// Builds the bytes of `"piece length"`.
fn make_key_piece_length() -> (v: Vec<u8>)
    ensures
        v@ == key_piece_length(),
{
    let mut v: Vec<u8> = Vec::new();
    v.push(112);
    v.push(105);
    v.push(101);
    v.push(99);
    v.push(101);
    v.push(32);
    v.push(108);
    v.push(101);
    v.push(110);
    v.push(103);
    v.push(116);
    v.push(104);
    assert(v@ =~= key_piece_length());
    v
}

/// Builds the bytes of `"pieces"`.
fn make_key_pieces() -> (v: Vec<u8>)
    ensures
        v@ == key_pieces(),
{
    let mut v: Vec<u8> = Vec::new();
    v.push(112);
    v.push(105);
    v.push(101);
    v.push(99);
    v.push(101);
    v.push(115);
    assert(v@ =~= key_pieces());
    v
}

/// Builds the bytes of `"length"`.
fn make_key_length() -> (v: Vec<u8>)
    ensures
        v@ == key_length(),
{
    let mut v: Vec<u8> = Vec::new();
    v.push(108);
    v.push(101);
    v.push(110);
    v.push(103);
    v.push(116);
    v.push(104);
    assert(v@ =~= key_length());
    v
}

/// Builds the bytes of `"files"`.
fn make_key_files() -> (v: Vec<u8>)
    ensures
        v@ == key_files(),
{
    let mut v: Vec<u8> = Vec::new();
    v.push(102);
    v.push(105);
    v.push(108);
    v.push(101);
    v.push(115);
    assert(v@ =~= key_files());
    v
}

/// Builds the bytes of `"path"`.
fn make_key_path() -> (v: Vec<u8>)
    ensures
        v@ == key_path(),
{
    let mut v: Vec<u8> = Vec::new();
    v.push(112);
    v.push(97);
    v.push(116);
    v.push(104);
    assert(v@ =~= key_path());
    v
}

/// Splits a `pieces` value into its 20-byte digests.
fn split_pieces(b: &[u8]) -> (hs: Vec<Vec<u8>>)
    requires
        b@.len() % 20 == 0,
    ensures
        hs@.map_values(|h: Vec<u8>| h@) == spec_split_pieces(b@),
        forall|k: int| 0 <= k < hs@.len() ==> (#[trigger] hs@[k])@.len() == 20,
{
    let n = b.len() / 20;
    let mut hs: Vec<Vec<u8>> = Vec::new();
    let mut g: usize = 0;
    while g < n
        invariant
            g <= n,
            n == b@.len() / 20,
            b@.len() % 20 == 0,
            b@.len() <= usize::MAX,
            hs@.len() == g,
            forall|k: int| 0 <= k < g as int ==> (#[trigger] hs@[k])@ == b@.subrange(
                20 * k,
                20 * k + 20,
            ),
        decreases n - g,
    {
        proof {
            assert(20 * (g + 1) <= 20 * n == b@.len()) by (nonlinear_arith)
                requires
                    g < n && n == b@.len() / 20 && b@.len() % 20 == 0 && b@.len() / 20 * 20
                        + b@.len() % 20 == b@.len(),
            ;
        }
        hs.push(vstd::slice::slice_to_vec(vstd::slice::slice_subrange(b, 20 * g, 20 * g + 20)));
        g = g + 1;
    }
    proof {
        assert(hs@.map_values(|h: Vec<u8>| h@) =~~= spec_split_pieces(b@));
    }
    hs
}

/// Parses the items of a `path` list, exactly as `spec_parse_path_items`
/// from an empty accumulator.
fn parse_path_list(s: &[u8], pos: usize) -> (r: Result<(Vec<Vec<u8>>, usize), Error>)
    requires
        pos <= s@.len(),
    ensures
        match r {
            Ok(p) => spec_parse_path_items(s@, pos as int, Seq::empty()) == Some(
                (p.0@.map_values(|c: Vec<u8>| c@), p.1 as int),
            ) && pos < p.1 <= s@.len(),
            Err(e) => spec_parse_path_items(s@, pos as int, Seq::empty()) is None && e
                == Error::Metainfo,
        },
{
    let mut acc: Vec<Vec<u8>> = Vec::new();
    let mut p = pos;
    proof {
        assert(acc@.map_values(|c: Vec<u8>| c@) =~= Seq::<Seq<u8>>::empty());
    }
    loop
        invariant
            pos <= p <= s@.len(),
            spec_parse_path_items(s@, pos as int, Seq::empty()) == spec_parse_path_items(
                s@,
                p as int,
                acc@.map_values(|c: Vec<u8>| c@),
            ),
        decreases s@.len() - p,
    {
        if p >= s.len() {
            return Err(Error::Metainfo);
        }
        if s[p] == 101 {
            return Ok((acc, p + 1));
        }
        match bencode::parse_bytestring(s, p) {
            Some(bp) => {
                proof {
                    let av = acc@.map_values(|c: Vec<u8>| c@);
                    assert(spec_parse_path_items(s@, p as int, av) == spec_parse_path_items(
                        s@,
                        bp.1 as int,
                        av.push(bp.0@),
                    ));
                    assert(acc@.push(bp.0).map_values(|c: Vec<u8>| c@) =~= av.push(bp.0@));
                }
                let e = bp.1;
                acc.push(bp.0);
                p = e;
            },
            None => {
                return Err(Error::Metainfo);
            },
        }
    }
}

/// Parses one file dictionary's entries, exactly as
/// `spec_parse_file_entries` from empty fields.
fn parse_file_dict(s: &[u8], pos: usize) -> (r: Result<(File, usize), Error>)
    requires
        pos <= s@.len(),
    ensures
        match r {
            Ok(p) => spec_parse_file_entries(s@, pos as int, None, None) == Some(
                (p.0@, p.1 as int),
            ) && pos < p.1 <= s@.len(),
            Err(e) => spec_parse_file_entries(s@, pos as int, None, None) is None && e
                == Error::Metainfo,
        },
{
    let key_length_bytes = make_key_length();
    let key_path_bytes = make_key_path();
    let mut length: Option<usize> = None;
    let mut path: Option<Vec<Vec<u8>>> = None;
    let mut p = pos;
    loop
        invariant
            pos <= p <= s@.len(),
            spec_parse_file_entries(s@, pos as int, None, None) == spec_parse_file_entries(
                s@,
                p as int,
                view_opt_len(length),
                view_opt_lists(path),
            ),
            key_length_bytes@ == key_length(),
            key_path_bytes@ == key_path(),
        decreases s@.len() - p,
    {
        if p >= s.len() {
            return Err(Error::Metainfo);
        }
        if s[p] == 101 {
            match (length, path) {
                (Some(l), Some(pa)) => {
                    let f = File { length: l, path: pa };
                    proof {
                        assert(f@ =~~= (FileView {
                            length: l as int,
                            path: view_opt_lists(Some(f.path)).unwrap(),
                        }));
                    }
                    return Ok((f, p + 1));
                },
                _ => {
                    return Err(Error::Metainfo);
                },
            }
        }
        let kp = match bencode::parse_bytestring(s, p) {
            Some(kp) => kp,
            None => {
                return Err(Error::Metainfo);
            },
        };
        let e = kp.1;
        if crate::wire::bytes_eq(kp.0.as_slice(), key_length_bytes.as_slice()) {
            if matches!(length, Some(_)) {
                return Err(Error::Metainfo);
            }
            match bencode::parse_int(s, e) {
                Some(vp) => {
                    if vp.0 < 0 || vp.0 as u64 > usize::MAX as u64 {
                        return Err(Error::Metainfo);
                    }
                    length = Some(vp.0 as usize);
                    p = vp.1;
                },
                None => {
                    return Err(Error::Metainfo);
                },
            }
        } else if crate::wire::bytes_eq(kp.0.as_slice(), key_path_bytes.as_slice()) {
            if matches!(path, Some(_)) {
                return Err(Error::Metainfo);
            }
            if e >= s.len() || s[e] != 108 {
                return Err(Error::Metainfo);
            }
            match parse_path_list(s, e + 1) {
                Ok(pp) => {
                    path = Some(pp.0);
                    p = pp.1;
                },
                Err(err) => {
                    return Err(err);
                },
            }
        } else {
            match bencode::skip_value(s, e) {
                Some(e2) => {
                    p = e2;
                },
                None => {
                    return Err(Error::Metainfo);
                },
            }
        }
    }
}

/// Parses the items of a `files` list, exactly as
/// `spec_parse_files_items` from an empty accumulator.
fn parse_files_list(s: &[u8], pos: usize) -> (r: Result<(Vec<File>, usize), Error>)
    requires
        pos <= s@.len(),
    ensures
        match r {
            Ok(p) => spec_parse_files_items(s@, pos as int, Seq::empty()) == Some(
                (p.0@.map_values(|f: File| f@), p.1 as int),
            ) && pos < p.1 <= s@.len(),
            Err(e) => spec_parse_files_items(s@, pos as int, Seq::empty()) is None && e
                == Error::Metainfo,
        },
{
    let mut acc: Vec<File> = Vec::new();
    let mut p = pos;
    proof {
        assert(acc@.map_values(|f: File| f@) =~= Seq::<FileView>::empty());
    }
    loop
        invariant
            pos <= p <= s@.len(),
            spec_parse_files_items(s@, pos as int, Seq::empty()) == spec_parse_files_items(
                s@,
                p as int,
                acc@.map_values(|f: File| f@),
            ),
        decreases s@.len() - p,
    {
        if p >= s.len() {
            return Err(Error::Metainfo);
        }
        if s[p] == 101 {
            return Ok((acc, p + 1));
        }
        if s[p] != 100 {
            return Err(Error::Metainfo);
        }
        match parse_file_dict(s, p + 1) {
            Ok(fp) => {
                proof {
                    let av = acc@.map_values(|f: File| f@);
                    assert(spec_parse_files_items(s@, p as int, av) == spec_parse_files_items(
                        s@,
                        fp.1 as int,
                        av.push(fp.0@),
                    ));
                    assert(acc@.push(fp.0).map_values(|f: File| f@) =~= av.push(fp.0@));
                }
                let e = fp.1;
                acc.push(fp.0);
                p = e;
            },
            Err(err) => {
                return Err(err);
            },
        }
    }
}


/// Parses the info dictionary's entries, exactly as
/// `spec_parse_info_entries` from empty fields.
fn parse_info_dict(s: &[u8], pos: usize) -> (r: Result<(Info, usize), Error>)
    requires
        pos <= s@.len(),
    ensures
        match r {
            Ok(p) => spec_parse_info_entries(s@, pos as int, None, None, None, None) == Some(
                (p.0@, p.1 as int),
            ) && pos < p.1 <= s@.len() && p.0.plength >= 1 && hashes_wf(p.0.pieces),
            Err(e) => spec_parse_info_entries(s@, pos as int, None, None, None, None) is None && e
                == Error::Metainfo,
        },
{
    let key_name_bytes = make_key_name();
    let key_piece_length_bytes = make_key_piece_length();
    let key_pieces_bytes = make_key_pieces();
    let key_length_bytes = make_key_length();
    let key_files_bytes = make_key_files();
    let mut name: Option<Vec<u8>> = None;
    let mut plength: Option<usize> = None;
    let mut pieces: Option<Vec<Vec<u8>>> = None;
    let mut keys: Option<Keys> = None;
    let mut p = pos;
    loop
        invariant
            pos <= p <= s@.len(),
            spec_parse_info_entries(s@, pos as int, None, None, None, None)
                == spec_parse_info_entries(
                s@,
                p as int,
                view_opt_bytes(name),
                view_opt_len(plength),
                view_opt_lists(pieces),
                view_opt_keys(keys),
            ),
            key_name_bytes@ == key_name(),
            key_piece_length_bytes@ == key_piece_length(),
            key_pieces_bytes@ == key_pieces(),
            key_length_bytes@ == key_length(),
            key_files_bytes@ == key_files(),
            matches!(plength, Some(_)) ==> plength.unwrap() >= 1,
            matches!(pieces, Some(_)) ==> forall|k: int|
                0 <= k < pieces.unwrap()@.len() ==> (#[trigger] pieces.unwrap()@[k])@.len() == 20,
        decreases s@.len() - p,
    {
        if p >= s.len() {
            return Err(Error::Metainfo);
        }
        if s[p] == 101 {
            match (name, plength, pieces, keys) {
                (Some(n), Some(pl), Some(ps), Some(k)) => {
                    let info = Info { name: n, plength: pl, pieces: Hashes(ps), keys: k };
                    proof {
                        assert(info@ =~~= (InfoView {
                            name: info.name@,
                            plength: pl as int,
                            pieces: info.pieces.0@.map_values(|h: Vec<u8>| h@),
                            keys: info.keys@,
                        }));
                    }
                    return Ok((info, p + 1));
                },
                _ => {
                    return Err(Error::Metainfo);
                },
            }
        }
        let kp = match bencode::parse_bytestring(s, p) {
            Some(kp) => kp,
            None => {
                return Err(Error::Metainfo);
            },
        };
        let e = kp.1;
        if crate::wire::bytes_eq(kp.0.as_slice(), key_name_bytes.as_slice()) {
            if matches!(name, Some(_)) {
                return Err(Error::Metainfo);
            }
            match bencode::parse_bytestring(s, e) {
                Some(vp) => {
                    name = Some(vp.0);
                    p = vp.1;
                },
                None => {
                    return Err(Error::Metainfo);
                },
            }
        } else if crate::wire::bytes_eq(kp.0.as_slice(), key_piece_length_bytes.as_slice()) {
            if matches!(plength, Some(_)) {
                return Err(Error::Metainfo);
            }
            match bencode::parse_int(s, e) {
                Some(vp) => {
                    if vp.0 < 1 || vp.0 as u64 > usize::MAX as u64 {
                        return Err(Error::Metainfo);
                    }
                    plength = Some(vp.0 as usize);
                    p = vp.1;
                },
                None => {
                    return Err(Error::Metainfo);
                },
            }
        } else if crate::wire::bytes_eq(kp.0.as_slice(), key_pieces_bytes.as_slice()) {
            if matches!(pieces, Some(_)) {
                return Err(Error::Metainfo);
            }
            match bencode::parse_bytestring(s, e) {
                Some(vp) => {
                    if vp.0.len() % 20 != 0 {
                        return Err(Error::Metainfo);
                    }
                    pieces = Some(split_pieces(vp.0.as_slice()));
                    p = vp.1;
                },
                None => {
                    return Err(Error::Metainfo);
                },
            }
        } else if crate::wire::bytes_eq(kp.0.as_slice(), key_length_bytes.as_slice()) {
            if matches!(keys, Some(_)) {
                return Err(Error::Metainfo);
            }
            match bencode::parse_int(s, e) {
                Some(vp) => {
                    if vp.0 < 0 || vp.0 as u64 > usize::MAX as u64 {
                        return Err(Error::Metainfo);
                    }
                    keys = Some(Keys::SingleFile { length: vp.0 as usize });
                    p = vp.1;
                },
                None => {
                    return Err(Error::Metainfo);
                },
            }
        } else if crate::wire::bytes_eq(kp.0.as_slice(), key_files_bytes.as_slice()) {
            if matches!(keys, Some(_)) {
                return Err(Error::Metainfo);
            }
            if e >= s.len() || s[e] != 108 {
                return Err(Error::Metainfo);
            }
            match parse_files_list(s, e + 1) {
                Ok(fp) => {
                    proof {
                        assert(view_opt_keys(Some(Keys::MultiFile { files: fp.0 })) == Some(
                            KeysView::Multi { files: fp.0@.map_values(|f: File| f@) },
                        ));
                    }
                    keys = Some(Keys::MultiFile { files: fp.0 });
                    p = fp.1;
                },
                Err(err) => {
                    return Err(err);
                },
            }
        } else {
            match bencode::skip_value(s, e) {
                Some(e2) => {
                    p = e2;
                },
                None => {
                    return Err(Error::Metainfo);
                },
            }
        }
    }
}

impl Torrent {
    /// Parses a whole metainfo file, exactly as `spec_parse_torrent`:
    /// a bencoded dictionary holding `announce` and `info`, with nothing
    /// after it.  Anything else is a metainfo error.
    pub fn new(bytes: &[u8]) -> (r: Result<Torrent, Error>)
        ensures
            match r {
                Ok(t) => spec_parse_torrent(bytes@) == Some(t@) && t.info.plength >= 1
                    && hashes_wf(t.info.pieces),
                Err(e) => spec_parse_torrent(bytes@) is None && e == Error::Metainfo,
            },
    {
        if bytes.len() < 1 || bytes[0] != 100 {
            return Err(Error::Metainfo);
        }
        let key_announce_bytes = make_key_announce();
        let key_info_bytes = make_key_info();
        let mut announce: Option<Vec<u8>> = None;
        let mut info: Option<Info> = None;
        let mut p: usize = 1;
        loop
            invariant
                1 <= p <= bytes@.len(),
                spec_parse_torrent_entries(bytes@, 1, None, None) == spec_parse_torrent_entries(
                    bytes@,
                    p as int,
                    view_opt_bytes(announce),
                    match info {
                        Some(i) => Some(i@),
                        None => None,
                    },
                ),
                key_announce_bytes@ == key_announce(),
                key_info_bytes@ == key_info(),
                bytes@.len() >= 1 && bytes@[0] == 100,
                matches!(info, Some(_)) ==> info.unwrap().plength >= 1 && hashes_wf(
                    info.unwrap().pieces,
                ),
            decreases bytes@.len() - p,
        {
            if p >= bytes.len() {
                return Err(Error::Metainfo);
            }
            if bytes[p] == 101 {
                match (announce, info) {
                    (Some(a), Some(i)) => {
                        if p + 1 != bytes.len() {
                            return Err(Error::Metainfo);
                        }
                        let t = Torrent { announce: a, info: i };
                        proof {
                            assert(t@ =~~= (TorrentView { announce: t.announce@, info: t.info@ }));
                        }
                        return Ok(t);
                    },
                    _ => {
                        return Err(Error::Metainfo);
                    },
                }
            }
            let kp = match bencode::parse_bytestring(bytes, p) {
                Some(kp) => kp,
                None => {
                    return Err(Error::Metainfo);
                },
            };
            let e = kp.1;
            if crate::wire::bytes_eq(kp.0.as_slice(), key_announce_bytes.as_slice()) {
                if matches!(announce, Some(_)) {
                    return Err(Error::Metainfo);
                }
                match bencode::parse_bytestring(bytes, e) {
                    Some(vp) => {
                        announce = Some(vp.0);
                        p = vp.1;
                    },
                    None => {
                        return Err(Error::Metainfo);
                    },
                }
            } else if crate::wire::bytes_eq(kp.0.as_slice(), key_info_bytes.as_slice()) {
                if matches!(info, Some(_)) {
                    return Err(Error::Metainfo);
                }
                if e >= bytes.len() || bytes[e] != 100 {
                    return Err(Error::Metainfo);
                }
                match parse_info_dict(bytes, e + 1) {
                    Ok(ip) => {
                        info = Some(ip.0);
                        p = ip.1;
                    },
                    Err(err) => {
                        return Err(err);
                    },
                }
            } else {
                match bencode::skip_value(bytes, e) {
                    Some(e2) => {
                        p = e2;
                    },
                    None => {
                        return Err(Error::Metainfo);
                    },
                }
            }
        }
    }
}


/// The concatenated path components of a non-empty list end with the last.
pub proof fn lemma_enc_path_items_unsnoc(ps: Seq<Seq<u8>>)
    requires
        ps.len() > 0,
    ensures
        spec_enc_path_items(ps) == spec_enc_path_items(ps.drop_last()) + spec_enc_bytes(ps.last()),
    decreases ps.len(),
{
    if ps.len() == 1 {
        assert(ps.drop_first() =~= Seq::<Seq<u8>>::empty());
        assert(ps.drop_last() =~= Seq::<Seq<u8>>::empty());
        assert(spec_enc_path_items(ps) =~= spec_enc_path_items(ps.drop_last()) + spec_enc_bytes(
            ps.last(),
        ));
    } else {
        lemma_enc_path_items_unsnoc(ps.drop_first());
        assert(ps.drop_last().drop_first() =~= ps.drop_first().drop_last());
        assert(ps.drop_first().last() == ps.last());
        assert(spec_enc_path_items(ps) =~= spec_enc_path_items(ps.drop_last()) + spec_enc_bytes(
            ps.last(),
        ));
    }
}

/// The concatenated file entries of a non-empty list end with the last.
pub proof fn lemma_enc_files_items_unsnoc(fs: Seq<FileView>)
    requires
        fs.len() > 0,
    ensures
        spec_enc_files_items(fs) == spec_enc_files_items(fs.drop_last()) + spec_enc_file(
            fs.last(),
        ),
    decreases fs.len(),
{
    if fs.len() == 1 {
        assert(fs.drop_first() =~= Seq::<FileView>::empty());
        assert(fs.drop_last() =~= Seq::<FileView>::empty());
        assert(spec_enc_files_items(fs) =~= spec_enc_files_items(fs.drop_last()) + spec_enc_file(
            fs.last(),
        ));
    } else {
        lemma_enc_files_items_unsnoc(fs.drop_first());
        assert(fs.drop_last().drop_first() =~= fs.drop_first().drop_last());
        assert(fs.drop_first().last() == fs.last());
        assert(spec_enc_files_items(fs) =~= spec_enc_files_items(fs.drop_last()) + spec_enc_file(
            fs.last(),
        ));
    }
}

/// The concatenated digests of a non-empty table end with the last.
pub proof fn lemma_concat_pieces_unsnoc(ps: Seq<Seq<u8>>)
    requires
        ps.len() > 0,
    ensures
        spec_concat_pieces(ps) == spec_concat_pieces(ps.drop_last()) + ps.last(),
    decreases ps.len(),
{
    if ps.len() == 1 {
        assert(ps.drop_first() =~= Seq::<Seq<u8>>::empty());
        assert(ps.drop_last() =~= Seq::<Seq<u8>>::empty());
        assert(spec_concat_pieces(ps) =~= spec_concat_pieces(ps.drop_last()) + ps.last());
    } else {
        lemma_concat_pieces_unsnoc(ps.drop_first());
        assert(ps.drop_last().drop_first() =~= ps.drop_first().drop_last());
        assert(ps.drop_first().last() == ps.last());
        assert(spec_concat_pieces(ps) =~= spec_concat_pieces(ps.drop_last()) + ps.last());
    }
}

/// The bounds under which an info dictionary can be re-encoded by this
/// library: every integer fits the canonical integer frame.
pub open spec fn info_enc_bounds(iv: InfoView) -> bool {
    &&& 1 <= iv.plength <= i64::MAX
    &&& match iv.keys {
        KeysView::Single { length } => 0 <= length <= i64::MAX,
        KeysView::Multi { files } => forall|k: int|
            0 <= k < files.len() ==> 0 <= (#[trigger] files[k]).length <= i64::MAX,
    }
}

/// Appends the canonical encoding of one file dictionary.
fn encode_file(out: &mut Vec<u8>, f: &File)
    requires
        f.length <= i64::MAX,
    ensures
        final(out)@ == old(out)@ + spec_enc_file(f@),
{
    let key_length_bytes = make_key_length();
    let key_path_bytes = make_key_path();
    out.push(100);
    bencode::push_bytestring(out, key_length_bytes.as_slice());
    bencode::push_int(out, f.length as i64);
    bencode::push_bytestring(out, key_path_bytes.as_slice());
    out.push(108);
    let ghost base = out@;
    let ghost pv = f@.path;
    let mut j: usize = 0;
    proof {
        assert(pv.take(0) =~= Seq::<Seq<u8>>::empty());
        assert(out@ =~= base + spec_enc_path_items(pv.take(0)));
    }
    while j < f.path.len()
        invariant
            j <= f.path@.len(),
            pv == f@.path,
            pv.len() == f.path@.len(),
            forall|k: int| 0 <= k < pv.len() ==> pv[k] == (#[trigger] f.path@[k])@,
            out@ == base + spec_enc_path_items(pv.take(j as int)),
        decreases f.path@.len() - j,
    {
        bencode::push_bytestring(out, f.path[j].as_slice());
        j = j + 1;
        proof {
            lemma_enc_path_items_unsnoc(pv.take(j as int));
            assert(pv.take(j as int).drop_last() =~= pv.take(j - 1));
            assert(pv.take(j as int).last() == f.path@[j - 1]@);
            assert(out@ =~= base + spec_enc_path_items(pv.take(j as int)));
        }
    }
    proof {
        assert(pv.take(pv.len() as int) =~= pv);
    }
    out.push(101);
    out.push(101);
    assert(final(out)@ =~= old(out)@ + spec_enc_file(f@));
}

impl Info {
    /// The canonical bencoding of this info dictionary: keys in sorted
    /// order, integers and length prefixes canonical.
    #[verifier::rlimit(80)]
    pub fn encode(&self) -> (r: Vec<u8>)
        requires
            info_enc_bounds(self@),
        ensures
            r@ == spec_enc_info(self@),
    {
        let mut out: Vec<u8> = Vec::new();
        out.push(100);
        match &self.keys {
            Keys::SingleFile { length } => {
                let key_length_bytes = make_key_length();
                bencode::push_bytestring(&mut out, key_length_bytes.as_slice());
                bencode::push_int(&mut out, *length as i64);
            },
            Keys::MultiFile { files } => {
                let key_files_bytes = make_key_files();
                bencode::push_bytestring(&mut out, key_files_bytes.as_slice());
                out.push(108);
                let ghost base = out@;
                let ghost fv = files@.map_values(|f: File| f@);
                let mut i: usize = 0;
                proof {
                    assert(fv.take(0) =~= Seq::<FileView>::empty());
                    assert(out@ =~= base + spec_enc_files_items(fv.take(0)));
                    assert(self@.keys == KeysView::Multi { files: fv });
                    assert forall|k: int| 0 <= k < fv.len() implies (#[trigger] files@[k]).length
                        <= i64::MAX by {
                        assert(fv[k] == files@[k]@);
                    }
                }
                while i < files.len()
                    invariant
                        i <= files@.len(),
                        fv == files@.map_values(|f: File| f@),
                        fv.len() == files@.len(),
                        forall|k: int| 0 <= k < fv.len() ==> (#[trigger] files@[k]).length
                            <= i64::MAX,
                        out@ == base + spec_enc_files_items(fv.take(i as int)),
                    decreases files@.len() - i,
                {
                    encode_file(&mut out, &files[i]);
                    i = i + 1;
                    proof {
                        lemma_enc_files_items_unsnoc(fv.take(i as int));
                        assert(fv.take(i as int).drop_last() =~= fv.take(i - 1));
                        assert(fv.take(i as int).last() == files@[i - 1]@);
                        assert(out@ =~= base + spec_enc_files_items(fv.take(i as int)));
                    }
                }
                proof {
                    assert(fv.take(fv.len() as int) =~= fv);
                }
                out.push(101);
            },
        }
        let key_name_bytes = make_key_name();
        bencode::push_bytestring(&mut out, key_name_bytes.as_slice());
        bencode::push_bytestring(&mut out, self.name.as_slice());
        let key_piece_length_bytes = make_key_piece_length();
        bencode::push_bytestring(&mut out, key_piece_length_bytes.as_slice());
        bencode::push_int(&mut out, self.plength as i64);
        let key_pieces_bytes = make_key_pieces();
        bencode::push_bytestring(&mut out, key_pieces_bytes.as_slice());
        let mut concat: Vec<u8> = Vec::new();
        let ghost hv = self.pieces.0@.map_values(|h: Vec<u8>| h@);
        let mut g: usize = 0;
        proof {
            assert(hv.take(0) =~= Seq::<Seq<u8>>::empty());
            assert(concat@ =~= spec_concat_pieces(hv.take(0)));
        }
        while g < self.pieces.0.len()
            invariant
                g <= self.pieces.0@.len(),
                hv == self.pieces.0@.map_values(|h: Vec<u8>| h@),
                hv.len() == self.pieces.0@.len(),
                concat@ == spec_concat_pieces(hv.take(g as int)),
            decreases self.pieces.0@.len() - g,
        {
            crate::wire::push_bytes(&mut concat, self.pieces.0[g].as_slice());
            g = g + 1;
            proof {
                lemma_concat_pieces_unsnoc(hv.take(g as int));
                assert(hv.take(g as int).drop_last() =~= hv.take(g - 1));
                assert(hv.take(g as int).last() == self.pieces.0@[g - 1]@);
                assert(concat@ =~= spec_concat_pieces(hv.take(g as int)));
            }
        }
        proof {
            assert(hv.take(hv.len() as int) =~= hv);
        }
        bencode::push_bytestring(&mut out, concat.as_slice());
        out.push(101);
        assert(out@ =~= spec_enc_info(self@));
        out
    }
}

impl Torrent {
    /// The torrent's identity: the SHA-1 digest of the canonically
    /// re-encoded info dictionary.
    pub fn info_hash(&self) -> (r: Vec<u8>)
        requires
            info_enc_bounds(self.info@),
        ensures
            r@ == crate::digest::sha1_of(spec_enc_info(self.info@)),
            r@.len() == 20,
    {
        let enc = self.info.encode();
        crate::digest::sha1_digest(enc.as_slice())
    }
}


/// A table of 20-byte digests concatenates to `20 * n` bytes.
pub proof fn lemma_concat_pieces_len(ps: Seq<Seq<u8>>)
    requires
        forall|k: int| 0 <= k < ps.len() ==> (#[trigger] ps[k]).len() == 20,
    ensures
        spec_concat_pieces(ps).len() == 20 * ps.len(),
    decreases ps.len(),
{
    if ps.len() > 0 {
        lemma_concat_pieces_len(ps.drop_first());
    }
}

/// Group `k` of a concatenated digest table is digest `k`.
pub proof fn lemma_concat_pieces_index(ps: Seq<Seq<u8>>, k: int)
    requires
        forall|m: int| 0 <= m < ps.len() ==> (#[trigger] ps[m]).len() == 20,
        0 <= k < ps.len(),
    ensures
        spec_concat_pieces(ps).subrange(20 * k, 20 * k + 20) == ps[k],
    decreases k,
{
    lemma_concat_pieces_len(ps);
    lemma_concat_pieces_len(ps.drop_first());
    if k == 0 {
        assert(spec_concat_pieces(ps).subrange(0, 20) =~= ps[0]);
    } else {
        lemma_concat_pieces_index(ps.drop_first(), k - 1);
        assert(spec_concat_pieces(ps).subrange(20 * k, 20 * k + 20) =~= spec_concat_pieces(
            ps.drop_first(),
        ).subrange(20 * (k - 1), 20 * (k - 1) + 20));
    }
}

/// Splitting the concatenation of 20-byte digests yields them back.
pub proof fn lemma_split_concat_pieces(ps: Seq<Seq<u8>>)
    requires
        forall|k: int| 0 <= k < ps.len() ==> (#[trigger] ps[k]).len() == 20,
    ensures
        spec_concat_pieces(ps).len() % 20 == 0,
        spec_split_pieces(spec_concat_pieces(ps)) == ps,
{
    lemma_concat_pieces_len(ps);
    assert(spec_split_pieces(spec_concat_pieces(ps)) =~~= ps) by {
        assert(spec_concat_pieces(ps).len() / 20 == ps.len());
        assert forall|k: int| 0 <= k < ps.len() implies spec_split_pieces(
            spec_concat_pieces(ps),
        )[k] == ps[k] by {
            lemma_concat_pieces_index(ps, k);
        }
    }
}

/// The metainfo keys this library dispatches on are pairwise distinct.
proof fn lemma_keys_distinct()
    ensures
        key_length() != key_name(),
        key_length() != key_piece_length(),
        key_length() != key_pieces(),
        key_files() != key_name(),
        key_files() != key_piece_length(),
        key_files() != key_pieces(),
        key_files() != key_length(),
        key_path() != key_length(),
        key_piece_length() != key_name(),
        key_pieces() != key_name(),
        key_pieces() != key_piece_length(),
{
    assert(key_length()[0] == 108 && key_pieces()[0] == 112);
    assert(key_length().len() == 6 && key_name().len() == 4 && key_piece_length().len() == 12
        && key_pieces().len() == 6 && key_files().len() == 5 && key_path().len() == 4);
}

/// The first byte of a canonical byte-string frame is a digit.
proof fn lemma_enc_bytes_head(b: Seq<u8>)
    ensures
        spec_enc_bytes(b).len() >= 2,
        bencode::is_digit(spec_enc_bytes(b)[0]),
        spec_enc_bytes(b)[0] != 101 && spec_enc_bytes(b)[0] != 100,
{
    bencode::lemma_digits_are_digits(b.len() as int);
    assert(spec_enc_bytes(b)[0] == bencode::spec_digits(b.len() as int)[0]);
}

/// Parsing the canonical encoding of a path list's items, closed by `e`,
/// appends the components to the accumulator.
proof fn lemma_parse_enc_path_items(s: Seq<u8>, i: int, ps: Seq<Seq<u8>>, acc: Seq<Seq<u8>>)
    requires
        0 <= i,
        forall|k: int| 0 <= k < ps.len() ==> (#[trigger] ps[k]).len() <= usize::MAX,
        i + spec_enc_path_items(ps).len() < s.len(),
        s.subrange(i, i + spec_enc_path_items(ps).len() as int) == spec_enc_path_items(ps),
        s[i + spec_enc_path_items(ps).len()] == 101,
    ensures
        spec_parse_path_items(s, i, acc) == Some(
            (acc + ps, i + spec_enc_path_items(ps).len() + 1),
        ),
    decreases ps.len(),
{
    let whole = spec_enc_path_items(ps);
    if ps.len() == 0 {
        assert(acc + ps =~= acc);
    } else {
        let head = spec_enc_bytes(ps[0]);
        let rest = spec_enc_path_items(ps.drop_first());
        assert(whole =~= head + rest);
        bencode::lemma_region_split(s, i, head, rest);
        lemma_enc_bytes_head(ps[0]);
        assert(s[i] == head[0]) by {
            assert(s.subrange(i, i + head.len() as int)[0] == head[0]);
        }
        bencode::lemma_parse_enc_bytes(s, i, ps[0]);
        let e = i + head.len() as int;
        lemma_parse_enc_path_items(s, e, ps.drop_first(), acc.push(ps[0]));
        assert(acc.push(ps[0]) + ps.drop_first() =~= acc + ps);
    }
}

/// Parsing the canonical encoding of one file dictionary yields its view.
proof fn lemma_parse_enc_file(s: Seq<u8>, i: int, fv: FileView)
    requires
        0 <= i,
        0 <= fv.length <= i64::MAX,
        fv.length <= usize::MAX,
        forall|k: int| 0 <= k < fv.path.len() ==> (#[trigger] fv.path[k]).len() <= usize::MAX,
        i + spec_enc_file(fv).len() <= s.len(),
        s.subrange(i, i + spec_enc_file(fv).len() as int) == spec_enc_file(fv),
    ensures
        s[i] == 100,
        spec_parse_file_entries(s, i + 1, None, None) == Some((fv, i + spec_enc_file(fv).len())),
{
    let whole = spec_enc_file(fv);
    let b1 = spec_enc_bytes(key_length());
    let b2 = spec_enc_int(fv.length);
    let b3 = spec_enc_bytes(key_path());
    let items = spec_enc_path_items(fv.path);
    let tail1 = b1 + (b2 + (b3 + (seq![108u8] + (items + (seq![101u8] + seq![101u8])))));
    assert(s[i] == 100) by {
        assert(s.subrange(i, i + whole.len() as int)[0] == whole[0]);
    }
    assert(s.subrange(i, i + whole.len() as int) =~= seq![100u8] + tail1);
    bencode::lemma_region_split(s, i, seq![100u8], tail1);
    let p1 = i + 1;
    bencode::lemma_region_split(s, p1, b1, b2 + (b3 + (seq![108u8] + (items + (seq![101u8]
        + seq![101u8])))));
    let p2 = p1 + b1.len() as int;
    bencode::lemma_region_split(s, p2, b2, b3 + (seq![108u8] + (items + (seq![101u8]
        + seq![101u8]))));
    let p3 = p2 + b2.len() as int;
    bencode::lemma_region_split(s, p3, b3, seq![108u8] + (items + (seq![101u8] + seq![101u8])));
    let p4 = p3 + b3.len() as int;
    bencode::lemma_region_split(s, p4, seq![108u8], items + (seq![101u8] + seq![101u8]));
    let p5 = p4 + 1;
    bencode::lemma_region_split(s, p5, items, seq![101u8] + seq![101u8]);
    let p6 = p5 + items.len() as int;
    bencode::lemma_region_split(s, p6, seq![101u8], seq![101u8]);
    assert(s[p4] == 108) by {
        assert(s.subrange(p4, p4 + 1) =~= seq![108u8]);
        assert(s.subrange(p4, p4 + 1)[0] == 108);
    }
    assert(s[p6] == 101) by {
        assert(s.subrange(p6, p6 + 1)[0] == 101);
    }
    assert(s[p6 + 1] == 101) by {
        assert(s.subrange(p6 + 1, p6 + 2)[0] == 101);
    }
    lemma_keys_distinct();
    lemma_enc_bytes_head(key_length());
    assert(s[p1] == b1[0]) by {
        assert(s.subrange(p1, p1 + b1.len() as int)[0] == b1[0]);
    }
    bencode::lemma_parse_enc_bytes(s, p1, key_length());
    bencode::lemma_parse_enc_int(s, p2, fv.length);
    lemma_enc_bytes_head(key_path());
    assert(s[p3] == b3[0]) by {
        assert(s.subrange(p3, p3 + b3.len() as int)[0] == b3[0]);
    }
    bencode::lemma_parse_enc_bytes(s, p3, key_path());
    lemma_parse_enc_path_items(s, p5, fv.path, Seq::empty());
    assert(Seq::<Seq<u8>>::empty() + fv.path =~= fv.path);
    assert(spec_parse_file_entries(s, p1, None, None) == spec_parse_file_entries(
        s,
        p3,
        Some(fv.length),
        None,
    ));
    assert(spec_parse_file_entries(s, p3, Some(fv.length), None) == spec_parse_file_entries(
        s,
        p6 + 1,
        Some(fv.length),
        Some(fv.path),
    ));
    assert(spec_parse_file_entries(s, p6 + 1, Some(fv.length), Some(fv.path)) == Some(
        (FileView { length: fv.length, path: fv.path }, p6 + 2),
    ));
    assert(fv =~~= (FileView { length: fv.length, path: fv.path }));
}

/// Parsing the canonical encoding of the files list's items, closed by
/// `e`, appends the file views to the accumulator.
proof fn lemma_parse_enc_files_items(s: Seq<u8>, i: int, fs: Seq<FileView>, acc: Seq<FileView>)
    requires
        0 <= i,
        forall|k: int| 0 <= k < fs.len() ==> {
            &&& 0 <= (#[trigger] fs[k]).length <= i64::MAX
            &&& fs[k].length <= usize::MAX
            &&& forall|j: int| 0 <= j < fs[k].path.len() ==> (#[trigger] fs[k].path[j]).len()
                <= usize::MAX
        },
        i + spec_enc_files_items(fs).len() < s.len(),
        s.subrange(i, i + spec_enc_files_items(fs).len() as int) == spec_enc_files_items(fs),
        s[i + spec_enc_files_items(fs).len()] == 101,
    ensures
        spec_parse_files_items(s, i, acc) == Some(
            (acc + fs, i + spec_enc_files_items(fs).len() + 1),
        ),
    decreases fs.len(),
{
    let whole = spec_enc_files_items(fs);
    if fs.len() == 0 {
        assert(acc + fs =~= acc);
    } else {
        let head = spec_enc_file(fs[0]);
        let rest = spec_enc_files_items(fs.drop_first());
        assert(whole =~= head + rest);
        bencode::lemma_region_split(s, i, head, rest);
        lemma_parse_enc_file(s, i, fs[0]);
        let e = i + head.len() as int;
        lemma_parse_enc_files_items(s, e, fs.drop_first(), acc.push(fs[0]));
        assert(acc.push(fs[0]) + fs.drop_first() =~= acc + fs);
    }
}


/// The canonical encoding of the info dictionary's common tail: `name`,
/// `piece length` and `pieces` entries followed by the closing `e`.
pub open spec fn spec_enc_info_tail(iv: InfoView) -> Seq<u8> {
    spec_enc_bytes(key_name()) + spec_enc_bytes(iv.name) + spec_enc_bytes(key_piece_length())
        + spec_enc_int(iv.plength) + spec_enc_bytes(key_pieces()) + spec_enc_bytes(
        spec_concat_pieces(iv.pieces),
    ) + seq![101u8]
}

/// Parsing the common tail with the file layout already accumulated
/// completes the info dictionary.
#[verifier::rlimit(100)]
#[verifier::spinoff_prover]
proof fn lemma_parse_enc_info_tail(s: Seq<u8>, i: int, iv: InfoView, k0: KeysView)
    requires
        0 <= i,
        info_view_wf(iv),
        i + spec_enc_info_tail(iv).len() <= s.len(),
        s.subrange(i, i + spec_enc_info_tail(iv).len() as int) == spec_enc_info_tail(iv),
    ensures
        spec_parse_info_entries(s, i, None, None, None, Some(k0)) == Some(
            (
                InfoView { name: iv.name, plength: iv.plength, pieces: iv.pieces, keys: k0 },
                i + spec_enc_info_tail(iv).len(),
            ),
        ),
{
    let n1 = spec_enc_bytes(key_name());
    let n2 = spec_enc_bytes(iv.name);
    let p1b = spec_enc_bytes(key_piece_length());
    let p2b = spec_enc_int(iv.plength);
    let s1 = spec_enc_bytes(key_pieces());
    let concat = spec_concat_pieces(iv.pieces);
    let s2 = spec_enc_bytes(concat);
    let whole = spec_enc_info_tail(iv);
    assert(s.subrange(i, i + whole.len() as int) =~= n1 + (n2 + (p1b + (p2b + (s1 + (s2
        + seq![101u8]))))));
    bencode::lemma_region_split(s, i, n1, n2 + (p1b + (p2b + (s1 + (s2 + seq![101u8])))));
    let q1 = i + n1.len() as int;
    bencode::lemma_region_split(s, q1, n2, p1b + (p2b + (s1 + (s2 + seq![101u8]))));
    let q2 = q1 + n2.len() as int;
    bencode::lemma_region_split(s, q2, p1b, p2b + (s1 + (s2 + seq![101u8])));
    let q3 = q2 + p1b.len() as int;
    bencode::lemma_region_split(s, q3, p2b, s1 + (s2 + seq![101u8]));
    let q4 = q3 + p2b.len() as int;
    bencode::lemma_region_split(s, q4, s1, s2 + seq![101u8]);
    let q5 = q4 + s1.len() as int;
    bencode::lemma_region_split(s, q5, s2, seq![101u8]);
    let q6 = q5 + s2.len() as int;
    assert(s[q6] == 101) by {
        assert(s.subrange(q6, q6 + 1)[0] == 101);
    }
    lemma_keys_distinct();
    lemma_enc_bytes_head(key_name());
    assert(s[i] == n1[0]) by {
        assert(s.subrange(i, i + n1.len() as int)[0] == n1[0]);
    }
    bencode::lemma_parse_enc_bytes(s, i, key_name());
    bencode::lemma_parse_enc_bytes(s, q1, iv.name);
    lemma_enc_bytes_head(key_piece_length());
    assert(s[q2] == p1b[0]) by {
        assert(s.subrange(q2, q2 + p1b.len() as int)[0] == p1b[0]);
    }
    bencode::lemma_parse_enc_bytes(s, q2, key_piece_length());
    bencode::lemma_parse_enc_int(s, q3, iv.plength);
    lemma_enc_bytes_head(key_pieces());
    assert(s[q4] == s1[0]) by {
        assert(s.subrange(q4, q4 + s1.len() as int)[0] == s1[0]);
    }
    bencode::lemma_parse_enc_bytes(s, q4, key_pieces());
    lemma_concat_pieces_len(iv.pieces);
    bencode::lemma_parse_enc_bytes(s, q5, concat);
    lemma_split_concat_pieces(iv.pieces);
    assert(spec_parse_info_entries(s, i, None, None, None, Some(k0))
        == spec_parse_info_entries(s, q2, Some(iv.name), None, None, Some(k0)));
    assert(spec_parse_info_entries(s, q2, Some(iv.name), None, None, Some(k0))
        == spec_parse_info_entries(s, q4, Some(iv.name), Some(iv.plength), None, Some(k0)));
    assert(spec_parse_info_entries(s, q4, Some(iv.name), Some(iv.plength), None, Some(k0))
        == spec_parse_info_entries(
        s,
        q6,
        Some(iv.name),
        Some(iv.plength),
        Some(iv.pieces),
        Some(k0),
    ));
}

/// Bencode canonicalisation is stable: parsing the canonical encoding of
/// a well-formed info dictionary yields exactly that dictionary, consuming
/// the whole encoding — so an info-hash computed after a parse of the
/// canonical form equals the info-hash of the original.
pub proof fn lemma_info_canonical_round_trip(iv: InfoView)
    requires
        info_view_wf(iv),
    ensures
        spec_parse_info(spec_enc_info(iv), 0) == Some((iv, spec_enc_info(iv).len() as int)),
{
    match iv.keys {
        KeysView::Single { length } => {
            lemma_info_canonical_round_trip_single(iv, length);
        },
        KeysView::Multi { files } => {
            lemma_info_canonical_round_trip_multi(iv, files);
        },
    }
}

/// The canonical encoding of a single-file info dictionary, re-associated
/// for front-to-back parsing.
#[verifier::rlimit(60)]
#[verifier::spinoff_prover]
proof fn lemma_enc_info_single_shape(iv: InfoView, length: int)
    requires
        iv.keys == (KeysView::Single { length }),
    ensures
        spec_enc_info(iv) == seq![100u8] + (spec_enc_bytes(key_length()) + (spec_enc_int(length)
            + spec_enc_info_tail(iv))),
{
    assert(spec_enc_info(iv) =~= seq![100u8] + (spec_enc_bytes(key_length()) + (spec_enc_int(
        length,
    ) + spec_enc_info_tail(iv))));
}

/// One dispatch step of the info entries walk: a `length` key with its
/// integer value records the single-file layout.
#[verifier::rlimit(100)]
#[verifier::spinoff_prover]
proof fn lemma_info_entries_step_length(s: Seq<u8>, i: int, length: int, e1: int, e2: int)
    requires
        0 <= i < s.len(),
        bencode::is_digit(s[i]),
        bencode::spec_parse_bytestring(s, i) == Some((key_length(), e1)),
        i < e1 <= s.len(),
        bencode::spec_parse_int(s, e1) == Some((length, e2)),
        e1 < e2 <= s.len(),
        0 <= length <= usize::MAX,
    ensures
        spec_parse_info_entries(s, i, None, None, None, None) == spec_parse_info_entries(
            s,
            e2,
            None,
            None,
            None,
            Some(KeysView::Single { length }),
        ),
{
    lemma_keys_distinct();
    assert(s[i] != 101);
}

/// One dispatch step of the info entries walk: a `files` key with its
/// list value records the multi-file layout.
#[verifier::rlimit(100)]
#[verifier::spinoff_prover]
proof fn lemma_info_entries_step_files(s: Seq<u8>, i: int, files: Seq<FileView>, e1: int, e2: int)
    requires
        0 <= i < s.len(),
        bencode::is_digit(s[i]),
        bencode::spec_parse_bytestring(s, i) == Some((key_files(), e1)),
        i < e1 < s.len(),
        s[e1] == 108,
        spec_parse_files_items(s, e1 + 1, Seq::empty()) == Some((files, e2)),
        e1 < e2 <= s.len(),
    ensures
        spec_parse_info_entries(s, i, None, None, None, None) == spec_parse_info_entries(
            s,
            e2,
            None,
            None,
            None,
            Some(KeysView::Multi { files }),
        ),
{
    lemma_keys_distinct();
    assert(s[i] != 101);
    assert(Seq::<FileView>::empty() + files =~= files);
}

/// The single-file case of the canonical round trip.
#[verifier::rlimit(100)]
#[verifier::spinoff_prover]
proof fn lemma_info_canonical_round_trip_single(iv: InfoView, length: int)
    requires
        info_view_wf(iv),
        iv.keys == (KeysView::Single { length }),
    ensures
        spec_parse_info(spec_enc_info(iv), 0) == Some((iv, spec_enc_info(iv).len() as int)),
{
    let s = spec_enc_info(iv);
    let tail = spec_enc_info_tail(iv);
    let b1 = spec_enc_bytes(key_length());
    let b2 = spec_enc_int(length);
    lemma_enc_info_single_shape(iv, length);
    assert(s.subrange(0, s.len() as int) =~= s);
    bencode::lemma_region_split(s, 0, seq![100u8], b1 + (b2 + tail));
    bencode::lemma_region_split(s, 1, b1, b2 + tail);
    let p1 = 1 + b1.len() as int;
    bencode::lemma_region_split(s, p1, b2, tail);
    let p2 = p1 + b2.len() as int;
    assert(s[0] == 100) by {
        assert(s.subrange(0, 1)[0] == 100);
    }
    lemma_enc_bytes_head(key_length());
    assert(s[1] == b1[0]) by {
        assert(s.subrange(1, 1 + b1.len() as int)[0] == b1[0]);
    }
    bencode::lemma_parse_enc_bytes(s, 1, key_length());
    bencode::lemma_parse_enc_int(s, p1, length);
    lemma_info_entries_step_length(s, 1, length, p1, p2);
    lemma_parse_enc_info_tail(s, p2, iv, KeysView::Single { length });
    assert(iv =~~= (InfoView {
        name: iv.name,
        plength: iv.plength,
        pieces: iv.pieces,
        keys: KeysView::Single { length },
    }));
}

/// The canonical encoding of a multi-file info dictionary, re-associated
/// for front-to-back parsing.
#[verifier::rlimit(60)]
#[verifier::spinoff_prover]
proof fn lemma_enc_info_multi_shape(iv: InfoView, files: Seq<FileView>)
    requires
        iv.keys == (KeysView::Multi { files }),
    ensures
        spec_enc_info(iv) == seq![100u8] + (spec_enc_bytes(key_files()) + (seq![108u8] + (
        spec_enc_files_items(files) + (seq![101u8] + spec_enc_info_tail(iv))))),
{
    assert(spec_enc_info(iv) =~= seq![100u8] + (spec_enc_bytes(key_files()) + (seq![108u8] + (
    spec_enc_files_items(files) + (seq![101u8] + spec_enc_info_tail(iv))))));
}

/// The multi-file case of the canonical round trip.
#[verifier::rlimit(100)]
#[verifier::spinoff_prover]
proof fn lemma_info_canonical_round_trip_multi(iv: InfoView, files: Seq<FileView>)
    requires
        info_view_wf(iv),
        iv.keys == (KeysView::Multi { files }),
    ensures
        spec_parse_info(spec_enc_info(iv), 0) == Some((iv, spec_enc_info(iv).len() as int)),
{
    let s = spec_enc_info(iv);
    let tail = spec_enc_info_tail(iv);
    let b1 = spec_enc_bytes(key_files());
    let items = spec_enc_files_items(files);
    lemma_enc_info_multi_shape(iv, files);
    assert(s.subrange(0, s.len() as int) =~= s);
    bencode::lemma_region_split(s, 0, seq![100u8], b1 + (seq![108u8] + (items + (seq![101u8]
        + tail))));
    bencode::lemma_region_split(s, 1, b1, seq![108u8] + (items + (seq![101u8] + tail)));
    let p1 = 1 + b1.len() as int;
    bencode::lemma_region_split(s, p1, seq![108u8], items + (seq![101u8] + tail));
    let p2 = p1 + 1;
    bencode::lemma_region_split(s, p2, items, seq![101u8] + tail);
    let p3 = p2 + items.len() as int;
    bencode::lemma_region_split(s, p3, seq![101u8], tail);
    assert(s[0] == 100) by {
        assert(s.subrange(0, 1)[0] == 100);
    }
    assert(s[p1] == 108) by {
        assert(s.subrange(p1, p1 + 1)[0] == 108);
    }
    assert(s[p3] == 101) by {
        assert(s.subrange(p3, p3 + 1)[0] == 101);
    }
    lemma_enc_bytes_head(key_files());
    assert(s[1] == b1[0]) by {
        assert(s.subrange(1, 1 + b1.len() as int)[0] == b1[0]);
    }
    bencode::lemma_parse_enc_bytes(s, 1, key_files());
    lemma_parse_enc_files_items(s, p2, files, Seq::empty());
    assert(Seq::<FileView>::empty() + files =~= files);
    lemma_info_entries_step_files(s, 1, files, p1, p3 + 1);
    lemma_parse_enc_info_tail(s, p3 + 1, iv, KeysView::Multi { files });
    assert(iv =~~= (InfoView {
        name: iv.name,
        plength: iv.plength,
        pieces: iv.pieces,
        keys: KeysView::Multi { files },
    }));
}

/// The info-hash is stable under canonical re-encoding: whatever a parse
/// of the canonical encoding returns, its own canonical encoding — and so
/// its info-hash — is the original's.
pub proof fn lemma_info_hash_stable(iv: InfoView)
    requires
        info_view_wf(iv),
    ensures
        spec_parse_info(spec_enc_info(iv), 0) matches Some(p) && crate::digest::sha1_of(
            spec_enc_info(p.0),
        ) == crate::digest::sha1_of(spec_enc_info(iv)),
{
    lemma_info_canonical_round_trip(iv);
}

} // verus!
