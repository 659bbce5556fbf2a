//! Torrent metainfo: lengths, pieces, piece hashes and the v2 file tree.
use vstd::prelude::*;
use crate::Error;
use crate::bencode::{BValue, dict_get, dict_lookup, lossy_string, utf8_lossy};
use crate::hash::{sha1, sha1_digest, sha256, sha256_digest};
use crate::protocol::{copy_from, take20};
use crate::task::ceil_div;
use crate::text::str_to_string;

verus! {

/// A file of a v1 multi-file torrent.
#[derive(Debug)]
pub struct File {
    pub length: u64,
    pub path: Vec<String>,
}

/// A file of a v2 torrent's file tree.
#[derive(Debug)]
pub struct V2File {
    pub path: Vec<String>,
    pub length: u64,
    pub pieces_root: Option<Vec<u8>>,
}

/// A v2 file with its path, text and bytes seen as sequences.
pub struct V2FileView {
    pub path: Seq<Seq<char>>,
    pub length: u64,
    pub pieces_root: Option<Seq<u8>>,
}

impl View for V2File {
    type V = V2FileView;

    open spec fn view(&self) -> V2FileView {
        V2FileView {
            path: self.path@.map_values(|s: String| s@),
            length: self.length,
            pieces_root: match self.pieces_root {
                Some(r) => Some(r@),
                None => None,
            },
        }
    }
}

/// The `info` dictionary of a torrent.
#[derive(Debug)]
pub struct Info {
    pub name: String,
    pub piece_length: u64,
    pub pieces: Option<Vec<u8>>,
    pub length: Option<u64>,
    pub files: Option<Vec<File>>,
    pub meta_version: Option<u64>,
    pub file_tree: Option<BValue>,
}

/// A torrent (metainfo) file.
#[derive(Debug)]
pub struct Torrent {
    pub announce: String,
    pub info: Info,
    pub announce_list: Option<Vec<Vec<String>>>,
    pub comment: Option<String>,
    pub created_by: Option<String>,
    pub creation_date: Option<u64>,
    pub piece_layers: Option<BValue>,
}

/// The key `length`.
pub open spec fn length_key() -> Seq<u8> {
    seq![108u8, 101, 110, 103, 116, 104]
}

/// The key `pieces root`.
pub open spec fn pieces_root_key() -> Seq<u8> {
    seq![112u8, 105, 101, 99, 101, 115, 32, 114, 111, 111, 116]
}

/// The file that a file-tree leaf describes: `length` (0 when absent or not
/// an integer) and `pieces root` (when a byte string).
pub open spec fn leaf_file(props: BValue, path: Seq<Seq<char>>) -> Seq<V2FileView> {
    match props {
        BValue::Dict(p) => seq![
            V2FileView {
                path,
                length: match dict_lookup(p@, length_key()) {
                    Some(BValue::Int(l)) => l as u64,
                    _ => 0,
                },
                pieces_root: match dict_lookup(p@, pieces_root_key()) {
                    Some(BValue::Bytes(r)) => Some(r@),
                    _ => None,
                },
            },
        ],
        _ => Seq::empty(),
    }
}

/// The files under the entries `from..` of a file-tree node at `path`, entry
/// by entry: an empty key marks a file, any other key a directory named by
/// the key's text.
pub open spec fn tree_files(node: BValue, path: Seq<Seq<char>>, from: int) -> Seq<V2FileView>
    decreases node, if node is Dict { node->Dict_0@.len() - from } else { 0 },
    via tree_files_decreases
{
    match node {
        BValue::Dict(d) => {
            if from < 0 || from >= d@.len() {
                Seq::empty()
            } else {
                let key = d@[from].0@;
                let val = d@[from].1;
                let here = if key.len() == 0 {
                    leaf_file(val, path)
                } else {
                    tree_files(val, path.push(utf8_lossy(key)), 0)
                };
                here + tree_files(node, path, from + 1)
            }
        },
        _ => Seq::empty(),
    }
}

#[via_fn]
proof fn tree_files_decreases(node: BValue, path: Seq<Seq<char>>, from: int) {
    broadcast use vstd::std_specs::vec::axiom_vec_index_decreases;

    if let BValue::Dict(d) = node {
        if 0 <= from < d@.len() {
            assert(decreases_to!(d => d[from]));
            assert(decreases_to!(node => d@[from].1));
        }
    }
}

fn copy_strings(v: &Vec<String>) -> (r: Vec<String>)
    ensures
        r@ == v@,
{
    let mut r: Vec<String> = Vec::new();
    let mut i: usize = 0;
    while i < v.len()
        invariant
            i <= v@.len(),
            r@ == v@.subrange(0, i as int),
        decreases v@.len() - i,
    {
        r.push(v[i].clone());
        i = i + 1;
        assert(r@ =~= v@.subrange(0, i as int));
    }
    assert(v@.subrange(0, i as int) =~= v@);
    r
}

/// The views of a list of v2 files.
pub open spec fn file_views(s: Seq<V2File>) -> Seq<V2FileView> {
    s.map_values(|f: V2File| f@)
}

/// The text of a path.
pub open spec fn path_view(p: Seq<String>) -> Seq<Seq<char>> {
    p.map_values(|s: String| s@)
}

fn leaf(props: &BValue, path: &Vec<String>, result: &mut Vec<V2File>)
    ensures
        file_views(final(result)@) == file_views(old(result)@) + leaf_file(*props, path_view(path@)),
{
    if let BValue::Dict(p) = props {
        let length_k: [u8; 6] = [108u8, 101, 110, 103, 116, 104];
        let root_k: [u8; 11] = [112u8, 105, 101, 99, 101, 115, 32, 114, 111, 111, 116];
        assert(length_k@ =~= length_key());
        assert(root_k@ =~= pieces_root_key());
        let length = match dict_get(p, length_k.as_slice()) {
            Some(BValue::Int(l)) => *l as u64,
            _ => 0,
        };
        let pieces_root = match dict_get(p, root_k.as_slice()) {
            Some(BValue::Bytes(r)) => Some(copy_from(r.as_slice(), 0)),
            _ => None,
        };
        proof {
            if let Some(BValue::Bytes(r)) = dict_lookup(p@, pieces_root_key()) {
                assert(r@.subrange(0, r@.len() as int) =~= r@);
            }
        }
        let f = V2File { path: copy_strings(path), length, pieces_root };
        result.push(f);
        assert(file_views(result@) =~= file_views(old(result)@) + leaf_file(*props, path_view(path@)));
    } else {
        assert(file_views(result@) =~= file_views(old(result)@) + leaf_file(*props, path_view(path@)));
    }
}

fn traverse_file_tree(node: &BValue, current_path: &mut Vec<String>, result: &mut Vec<V2File>)
    ensures
        final(current_path)@ == old(current_path)@,
        file_views(final(result)@) == file_views(old(result)@) + tree_files(*node, path_view(old(current_path)@), 0),
    decreases node,
{
    broadcast use vstd::std_specs::vec::axiom_vec_index_decreases;

    let ghost path = path_view(current_path@);
    if let BValue::Dict(dict) = node {
        let mut i: usize = 0;
        while i < dict.len()
            invariant
                i <= dict@.len(),
                *node == BValue::Dict(*dict),
                current_path@ == old(current_path)@,
                path == path_view(current_path@),
                file_views(result@) + tree_files(*node, path, i as int) == file_views(old(result)@)
                    + tree_files(*node, path, 0),
            decreases dict@.len() - i,
        {
            let key = lossy_string(dict[i].0.as_slice());
            let ghost before = file_views(result@);
            if key.as_str().is_empty() {
                leaf(&dict[i].1, current_path, result);
            } else {
                assert(decreases_to!(dict => dict[i as int]));
                let ghost k = key@;
                current_path.push(key);
                assert(path_view(current_path@) =~= path.push(k));
                traverse_file_tree(&dict[i].1, current_path, result);
                current_path.pop();
                assert(current_path@ =~= old(current_path)@);
            }
            proof {
                assert(file_views(result@) + tree_files(*node, path, i + 1) =~= before + tree_files(
                    *node,
                    path,
                    i as int,
                ));
            }
            i = i + 1;
        }
        assert(tree_files(*node, path, i as int) =~= Seq::empty());
        assert(file_views(result@) =~= file_views(result@) + Seq::<V2FileView>::empty());
    } else {
        assert(file_views(result@) =~= file_views(old(result)@) + tree_files(*node, path, 0));
    }
}


/// The lengths of the files under the entries `from..` of a file-tree node,
/// in the order in which `tree_files` lists those files.
pub open spec fn tree_lengths(node: BValue, from: int) -> Seq<u64>
    decreases node, if node is Dict { node->Dict_0@.len() - from } else { 0 },
    via tree_lengths_decreases
{
    match node {
        BValue::Dict(d) => {
            if from < 0 || from >= d@.len() {
                Seq::empty()
            } else {
                let val = d@[from].1;
                let here = if d@[from].0@.len() == 0 {
                    match val {
                        BValue::Dict(p) => seq![
                            match dict_lookup(p@, length_key()) {
                                Some(BValue::Int(l)) => l as u64,
                                _ => 0u64,
                            },
                        ],
                        _ => Seq::empty(),
                    }
                } else {
                    tree_lengths(val, 0)
                };
                here + tree_lengths(node, from + 1)
            }
        },
        _ => Seq::empty(),
    }
}

#[via_fn]
proof fn tree_lengths_decreases(node: BValue, from: int) {
    broadcast use vstd::std_specs::vec::axiom_vec_index_decreases;

    if let BValue::Dict(d) = node {
        if 0 <= from < d@.len() {
            assert(decreases_to!(d => d[from]));
            assert(decreases_to!(node => d@[from].1));
        }
    }
}

/// The lengths of a list of v2 files.
pub open spec fn lengths_of(s: Seq<V2FileView>) -> Seq<u64> {
    s.map_values(|f: V2FileView| f.length)
}

/// The lengths of a list of v1 files.
pub open spec fn v1_lengths(s: Seq<File>) -> Seq<u64> {
    s.map_values(|f: File| f.length)
}

/// The sum of a list of lengths.
pub open spec fn sum_lengths(s: Seq<u64>) -> int
    decreases s.len(),
{
    if s.len() == 0 {
        0
    } else {
        sum_lengths(s.drop_last()) + s.last()
    }
}

/// The number of pieces of `plen` bytes that a file of `len` bytes takes
/// (its length read as a `usize`).
pub open spec fn file_pieces(len: u64, plen: usize) -> int {
    if len == 0 {
        0
    } else {
        ceil_div((len as usize) as int, plen as int)
    }
}

/// The number of pieces that a list of files takes, file by file.
pub open spec fn sum_pieces(s: Seq<u64>, plen: usize) -> int
    decreases s.len(),
{
    if s.len() == 0 {
        0
    } else {
        sum_pieces(s.drop_last(), plen) + file_pieces(s.last(), plen)
    }
}

/// Whether pieces of `plen` bytes can be counted for files of these lengths:
/// the piece length is positive unless every file is empty.
pub open spec fn pieces_divisible(s: Seq<u64>, plen: usize) -> bool {
    plen > 0 || forall|k: int| 0 <= k < s.len() ==> s[k] == 0
}

/// The total length of the content of a torrent: the single-file length, else
/// the sum over the v1 file list, else the sum over the v2 file tree.
pub open spec fn total_length_of(t: Torrent) -> int {
    match t.info.length {
        Some(l) => l as int,
        None => match t.info.files {
            Some(f) => sum_lengths(v1_lengths(f@)),
            None => match t.info.file_tree {
                Some(tree) => sum_lengths(tree_lengths(tree, 0)),
                None => 0,
            },
        },
    }
}

/// The number of pieces of a torrent: 20 bytes of v1 hashes per piece, else
/// for a v2 torrent the pieces of its files, each file starting a new piece.
pub open spec fn pieces_count_of(t: Torrent) -> int {
    match t.info.pieces {
        Some(p) => (p@.len() / 20) as int,
        None => if t.info.meta_version == Some(2u64) {
            match t.info.file_tree {
                Some(tree) => sum_pieces(tree_lengths(tree, 0), t.info.piece_length as usize),
                None => 0,
            }
        } else {
            0
        },
    }
}

/// Whether the v2 piece count of a torrent can be computed in a `usize`
/// without dividing by a zero piece length.
pub open spec fn v2_countable(t: Torrent) -> bool {
    match t.info.file_tree {
        Some(tree) => {
            &&& pieces_divisible(tree_lengths(tree, 0), t.info.piece_length as usize)
            &&& sum_pieces(tree_lengths(tree, 0), t.info.piece_length as usize) <= usize::MAX
        },
        None => true,
    }
}

/// The SHA-1 hash of piece `index` of a v1 torrent: the `index`-th 20 bytes
/// of `pieces`.
pub open spec fn v1_piece_hash(t: Torrent, index: int) -> Result<Seq<u8>, Seq<char>> {
    match t.info.pieces {
        None => Err("No v1 pieces in torrent"@),
        Some(p) => if index * 20 + 20 <= p@.len() {
            Ok(p@.subrange(index * 20, index * 20 + 20))
        } else {
            Err("Piece index out of range"@)
        },
    }
}

/// The v1 hashes are the 20-byte groups of `pieces`, in piece order: byte
/// `j` of the hash of piece `index` is byte `20 * index + j` of `pieces`,
/// and a piece past the last group has none.
pub proof fn law_v1_piece_hash_groups(t: Torrent, index: int, p: Vec<u8>)
    requires
        t.info.pieces == Some(p),
        0 <= index,
    ensures
        20 * index + 20 <= p@.len() ==> (v1_piece_hash(t, index) matches Ok(h) && h.len() == 20
            && forall|j: int| 0 <= j < 20 ==> h[j] == p@[20 * index + j]),
        20 * index + 20 > p@.len() ==> v1_piece_hash(t, index) is Err,
{
}

/// The hash of the `k`-th piece of a file that takes `fp` pieces: the pieces
/// root itself for a one-piece file, else the `k`-th 32-byte hash of the
/// file's layer in `layers`, a dictionary keyed by pieces root.
pub open spec fn file_piece_hash(f: V2FileView, fp: int, layers: Option<BValue>, k: int) -> Result<
    Seq<u8>,
    Seq<char>,
> {
    match f.pieces_root {
        None => Err("Missing pieces root"@),
        Some(root) => if root.len() != 32 {
            Err("Invalid pieces root length"@)
        } else if fp == 1 {
            Ok(root)
        } else {
            match layers {
                None => Err("Missing piece layers"@),
                Some(BValue::Dict(d)) => match dict_lookup(d@, root) {
                    None => Err("Missing piece layer for file"@),
                    Some(BValue::Bytes(b)) => if k * 32 + 32 > b@.len() {
                        Err("Piece layer too short"@)
                    } else {
                        Ok(b@.subrange(k * 32, k * 32 + 32))
                    },
                    Some(_) => Err("Invalid piece layers format"@),
                },
                Some(_) => Err("Invalid piece layers format"@),
            }
        },
    }
}

/// The hash of piece `index` when the pieces of `files` are numbered from
/// `offset` on, file after file.
pub open spec fn v2_piece_hash(
    files: Seq<V2FileView>,
    plen: usize,
    layers: Option<BValue>,
    index: int,
    offset: int,
) -> Result<Seq<u8>, Seq<char>>
    decreases files.len(),
{
    if files.len() == 0 {
        Err("Piece index out of range for v2"@)
    } else {
        let fp = file_pieces(files[0].length, plen);
        if offset <= index < offset + fp {
            file_piece_hash(files[0], fp, layers, index - offset)
        } else {
            v2_piece_hash(files.subrange(1, files.len() as int), plen, layers, index, offset + fp)
        }
    }
}

/// The number of pieces of the files before file `f`, numbered file after file.
pub open spec fn pieces_before(files: Seq<V2FileView>, plen: usize, f: int) -> int {
    sum_pieces(lengths_of(files.take(f)), plen)
}

proof fn lemma_file_pieces_nonneg(len: u64, plen: usize)
    requires
        plen > 0,
    ensures
        file_pieces(len, plen) >= 0,
{
    if len != 0 {
        let a = (len as usize) as int;
        let b = plen as int;
        assert(a / b >= 0) by (nonlinear_arith)
            requires
                a >= 0,
                b > 0,
        ;
    }
}

proof fn lemma_sum_pieces_nonneg(s: Seq<u64>, plen: usize)
    requires
        plen > 0,
    ensures
        sum_pieces(s, plen) >= 0,
    decreases s.len(),
{
    if s.len() > 0 {
        lemma_sum_pieces_nonneg(s.drop_last(), plen);
        lemma_file_pieces_nonneg(s.last(), plen);
    }
}

proof fn lemma_sum_pieces_front(s: Seq<u64>, plen: usize)
    requires
        s.len() > 0,
    ensures
        sum_pieces(s, plen) == file_pieces(s[0], plen) + sum_pieces(s.subrange(1, s.len() as int), plen),
    decreases s.len(),
{
    if s.len() == 1 {
        assert(s.drop_last() =~= Seq::<u64>::empty());
        assert(s.subrange(1, 1) =~= Seq::<u64>::empty());
    } else {
        lemma_sum_pieces_front(s.drop_last(), plen);
        assert(s.subrange(1, s.len() as int).drop_last() =~= s.drop_last().subrange(
            1,
            s.drop_last().len() as int,
        ));
    }
}

proof fn lemma_v2_piece_in_file(
    files: Seq<V2FileView>,
    plen: usize,
    layers: Option<BValue>,
    index: int,
    offset: int,
    f: int,
)
    requires
        plen > 0,
        0 <= f < files.len(),
        offset + pieces_before(files, plen, f) <= index < offset + pieces_before(files, plen, f)
            + file_pieces(files[f].length, plen),
    ensures
        v2_piece_hash(files, plen, layers, index, offset) == file_piece_hash(
            files[f],
            file_pieces(files[f].length, plen),
            layers,
            index - offset - pieces_before(files, plen, f),
        ),
    decreases f,
{
    if f == 0 {
        assert(lengths_of(files.take(0)) =~= Seq::<u64>::empty());
    } else {
        let t = files.subrange(1, files.len() as int);
        let l = lengths_of(files.take(f));
        lemma_sum_pieces_front(l, plen);
        assert(l.subrange(1, l.len() as int) =~= lengths_of(t.take(f - 1)));
        lemma_sum_pieces_nonneg(lengths_of(t.take(f - 1)), plen);
        let fp0 = file_pieces(files[0].length, plen);
        assert(l[0] == files[0].length);
        assert(t[f - 1] == files[f]);
        lemma_v2_piece_in_file(t, plen, layers, index, offset + fp0, f - 1);
    }
}

/// Which hash a v2 piece has (BEP 52): pieces are numbered file after file,
/// so a piece `index` that falls in file `f` is the piece `index - o` of
/// that file, where `o` counts the pieces of the files before it. A file of
/// one piece is checked against its pieces root; otherwise the hash is the
/// 32 bytes at `(index - o) * 32` of the layer that `piece layers` holds
/// under the file's pieces root, and an error when the layer is shorter.
pub proof fn law_v2_piece_hash_in_file(
    files: Seq<V2FileView>,
    plen: usize,
    layers: Option<BValue>,
    index: int,
    f: int,
    root: Seq<u8>,
    dict: Vec<(Vec<u8>, BValue)>,
    layer: Vec<u8>,
)
    requires
        plen > 0,
        0 <= f < files.len(),
        pieces_before(files, plen, f) <= index < pieces_before(files, plen, f) + file_pieces(
            files[f].length,
            plen,
        ),
        files[f].pieces_root == Some(root),
        root.len() == 32,
    ensures
        ({
            let k = index - pieces_before(files, plen, f);
            let fp = file_pieces(files[f].length, plen);
            let h = v2_piece_hash(files, plen, layers, index, 0);
            &&& fp == 1 ==> h == Ok::<Seq<u8>, Seq<char>>(root)
            &&& fp > 1 && layers == Some(BValue::Dict(dict)) && dict_lookup(dict@, root) == Some(
                BValue::Bytes(layer),
            ) && k * 32 + 32 <= layer@.len() ==> h == Ok::<Seq<u8>, Seq<char>>(
                layer@.subrange(k * 32, k * 32 + 32),
            )
            &&& fp > 1 && layers == Some(BValue::Dict(dict)) && dict_lookup(dict@, root) == Some(
                BValue::Bytes(layer),
            ) && k * 32 + 32 > layer@.len() ==> h == Err::<Seq<u8>, Seq<char>>(
                "Piece layer too short"@,
            )
        }),
{
    lemma_v2_piece_in_file(files, plen, layers, index, 0, f);
}

/// The length of a v2 torrent (one with neither `length` nor `files`) is
/// the sum of the lengths of the files its file tree lists, the files that
/// `flatten_v2_files` returns.
pub proof fn law_v2_length_is_sum_of_files(t: Torrent)
    requires
        t.info.length is None,
        t.info.files is None,
        t.info.file_tree is Some,
    ensures
        total_length_of(t) == sum_lengths(lengths_of(tree_files(t.info.file_tree->Some_0, Seq::empty(), 0))),
{
    lemma_tree_lengths(t.info.file_tree->Some_0, Seq::empty(), 0);
}

/// The file tree's files have, in order, the lengths that `tree_lengths` lists.
pub proof fn lemma_tree_lengths(node: BValue, path: Seq<Seq<char>>, from: int)
    ensures
        lengths_of(tree_files(node, path, from)) == tree_lengths(node, from),
    decreases node, if node is Dict { node->Dict_0@.len() - from } else { 0 },
{
    broadcast use vstd::std_specs::vec::axiom_vec_index_decreases;

    if let BValue::Dict(d) = node {
        if 0 <= from < d@.len() {
            let key = d@[from].0@;
            let val = d@[from].1;
            assert(decreases_to!(d => d[from]));
            assert(decreases_to!(node => val));
            let here = if key.len() == 0 {
                leaf_file(val, path)
            } else {
                tree_files(val, path.push(utf8_lossy(key)), 0)
            };
            if key.len() != 0 {
                lemma_tree_lengths(val, path.push(utf8_lossy(key)), 0);
            } else {
                assert(lengths_of(here) =~= tree_lengths(node, from).subrange(0, lengths_of(here).len() as int));
            }
            lemma_tree_lengths(node, path, from + 1);
            assert(lengths_of(here + tree_files(node, path, from + 1)) =~= lengths_of(here) + lengths_of(
                tree_files(node, path, from + 1),
            ));
        } else {
            assert(lengths_of(tree_files(node, path, from)) =~= tree_lengths(node, from));
        }
    } else {
        assert(lengths_of(tree_files(node, path, from)) =~= tree_lengths(node, from));
    }
}

proof fn lemma_ceil_div_nonneg(a: int, b: int)
    requires
        a >= 0,
        b > 0,
    ensures
        ceil_div(a, b) >= 0,
        ceil_div(a, b) <= a || a == 0,
{
    assert(a / b >= 0) by (nonlinear_arith)
        requires
            a >= 0,
            b > 0,
    ;
    assert(a > 0 ==> a / b < a || (b == 1 && a / b == a)) by (nonlinear_arith)
        requires
            a >= 0,
            b > 0,
    ;
    assert(b == 1 ==> a % b == 0) by (nonlinear_arith)
        requires
            b > 0,
    ;
}

/// Past `(m - w) / w`, a multiple of `w` plus `w` exceeds `m`.
proof fn lemma_step_past(k: int, w: int, m: int)
    requires
        w > 0,
        m >= w,
        k > (m - w) / w,
    ensures
        k * w + w > m,
{
    assert(k * w + w > m) by (nonlinear_arith)
        requires
            w > 0,
            m >= w,
            k > (m - w) / w,
    ;
}

proof fn lemma_sum_lengths_prefix(s: Seq<u64>, i: int)
    requires
        0 <= i <= s.len(),
    ensures
        sum_lengths(s.take(i)) <= sum_lengths(s),
        sum_lengths(s.take(i)) >= 0,
    decreases s.len(),
{
    if i == s.len() {
        assert(s.take(i) =~= s);
        if s.len() > 0 {
            lemma_sum_lengths_prefix(s.drop_last(), i - 1);
            assert(s.drop_last().take(i - 1) =~= s.drop_last());
        }
    } else {
        lemma_sum_lengths_prefix(s.drop_last(), i);
        assert(s.drop_last().take(i) =~= s.take(i));
    }
}

proof fn lemma_sum_pieces_prefix(s: Seq<u64>, plen: usize, i: int)
    requires
        0 <= i <= s.len(),
        pieces_divisible(s, plen),
    ensures
        sum_pieces(s.take(i), plen) <= sum_pieces(s, plen),
        sum_pieces(s.take(i), plen) >= 0,
    decreases s.len(),
{
    if s.len() > 0 {
        assert(pieces_divisible(s.drop_last(), plen));
        if s.last() != 0 {
            lemma_ceil_div_nonneg((s.last() as usize) as int, plen as int);
        }
    }
    if i == s.len() {
        assert(s.take(i) =~= s);
        if s.len() > 0 {
            lemma_sum_pieces_prefix(s.drop_last(), plen, i - 1);
            assert(s.drop_last().take(i - 1) =~= s.drop_last());
        }
    } else {
        lemma_sum_pieces_prefix(s.drop_last(), plen, i);
        assert(s.drop_last().take(i) =~= s.take(i));
    }
}

fn take32(data: &[u8], start: usize) -> (r: [u8; 32])
    requires
        start + 32 <= data@.len(),
    ensures
        r@ == data@.subrange(start as int, start + 32),
{
    let mut r = [0u8; 32];
    let mut i: usize = 0;
    while i < 32
        invariant
            i <= 32,
            start + 32 <= data.len(),
            forall|j: int| 0 <= j < i ==> r@[j] == data@[start + j],
        decreases 32 - i,
    {
        r[i] = data[start + i];
        i = i + 1;
    }
    assert(r@ =~= data@.subrange(start as int, start + 32));
    r
}

impl Torrent {
    /// The files of the v2 file tree with their paths, lengths and pieces
    /// roots, in the order of the tree's entries; `None` without a file tree.
    pub fn flatten_v2_files(&self) -> (r: Option<Vec<V2File>>)
        ensures
            match self.info.file_tree {
                None => r is None,
                Some(tree) => r matches Some(v) && file_views(v@) == tree_files(
                    tree,
                    Seq::empty(),
                    0,
                ),
            },
    {
        match &self.info.file_tree {
            None => None,
            Some(tree) => {
                let mut result: Vec<V2File> = Vec::new();
                let mut path: Vec<String> = Vec::new();
                assert(path_view(path@) =~= Seq::empty());
                traverse_file_tree(tree, &mut path, &mut result);
                assert(file_views(result@) =~= tree_files(*tree, Seq::empty(), 0));
                Some(result)
            },
        }
    }

    /// The total length of the torrent's content.
    pub fn total_length(&self) -> (r: u64)
        requires
            total_length_of(*self) <= u64::MAX,
        ensures
            r == total_length_of(*self),
    {
        if let Some(len) = self.info.length {
            len
        } else if let Some(files) = &self.info.files {
            let ghost lens = v1_lengths(files@);
            let mut total: u64 = 0;
            let mut i: usize = 0;
            while i < files.len()
                invariant
                    i <= files@.len(),
                    lens == v1_lengths(files@),
                    sum_lengths(lens) <= u64::MAX,
                    total == sum_lengths(lens.take(i as int)),
                decreases files@.len() - i,
            {
                proof {
                    lemma_sum_lengths_prefix(lens, i + 1);
                    assert(lens.take(i + 1).drop_last() =~= lens.take(i as int));
                }
                total = total + files[i].length;
                i = i + 1;
            }
            assert(lens.take(i as int) =~= lens);
            total
        } else if let Some(v2) = self.flatten_v2_files() {
            let ghost lens = lengths_of(file_views(v2@));
            proof {
                let tree = self.info.file_tree->Some_0;
                lemma_tree_lengths(tree, Seq::empty(), 0);
            }
            let mut total: u64 = 0;
            let mut i: usize = 0;
            while i < v2.len()
                invariant
                    i <= v2@.len(),
                    lens == lengths_of(file_views(v2@)),
                    sum_lengths(lens) <= u64::MAX,
                    total == sum_lengths(lens.take(i as int)),
                decreases v2@.len() - i,
            {
                proof {
                    lemma_sum_lengths_prefix(lens, i + 1);
                    assert(lens.take(i + 1).drop_last() =~= lens.take(i as int));
                }
                total = total + v2[i].length;
                i = i + 1;
            }
            assert(lens.take(i as int) =~= lens);
            total
        } else {
            0
        }
    }

    /// The number of pieces of the torrent.
    pub fn pieces_count(&self) -> (r: usize)
        requires
            self.info.pieces is None && self.info.meta_version == Some(2u64) ==> v2_countable(*self),
        ensures
            r == pieces_count_of(*self),
    {
        if let Some(pieces) = &self.info.pieces {
            pieces.len() / 20
        } else if self.info.meta_version == Some(2u64) {
            let piece_len = self.info.piece_length as usize;
            match self.flatten_v2_files() {
                Some(files) => {
                    let ghost lens = lengths_of(file_views(files@));
                    proof {
                        let tree = self.info.file_tree->Some_0;
                        lemma_tree_lengths(tree, Seq::empty(), 0);
                    }
                    let mut total: usize = 0;
                    let mut i: usize = 0;
                    while i < files.len()
                        invariant
                            i <= files@.len(),
                            lens == lengths_of(file_views(files@)),
                            pieces_divisible(lens, piece_len),
                            sum_pieces(lens, piece_len) <= usize::MAX,
                            total == sum_pieces(lens.take(i as int), piece_len),
                        decreases files@.len() - i,
                    {
                        proof {
                            lemma_sum_pieces_prefix(lens, piece_len, i + 1);
                            assert(lens.take(i + 1).drop_last() =~= lens.take(i as int));
                        }
                        let fp = file_piece_count(files[i].length, piece_len);
                        total = total + fp;
                        i = i + 1;
                    }
                    assert(lens.take(i as int) =~= lens);
                    total
                },
                None => 0,
            }
        } else {
            0
        }
    }

    /// The SHA-1 hash of piece `index`, the `index`-th 20 bytes of `pieces`.
    pub fn piece_hash_v1(&self, index: usize) -> (r: Result<[u8; 20], Error>)
        ensures
            match v1_piece_hash(*self, index as int) {
                Ok(h) => r matches Ok(x) && x@ == h,
                Err(msg) => r matches Err(Error::Protocol(m)) && m@ == msg,
            },
    {
        match &self.info.pieces {
            None => Err(Error::Protocol(str_to_string("No v1 pieces in torrent"))),
            Some(pieces) => {
                if index > (usize::MAX - 20) / 20 || index * 20 + 20 > pieces.len() {
                    proof {
                        if index > (usize::MAX - 20) / 20 {
                            lemma_step_past(index as int, 20, usize::MAX as int);
                            assert(index * 20 + 20 > usize::MAX);
                        }
                        assert(index * 20 + 20 > pieces.len());
                    }
                    return Err(Error::Protocol(str_to_string("Piece index out of range")));
                }
                let start = index * 20;
                Ok(take20(pieces.as_slice(), start))
            },
        }
    }

    /// The SHA-256 hash of piece `index` of a v2 torrent.
    pub fn piece_hash_v2(&self, index: usize) -> (r: Result<[u8; 32], Error>)
        requires
            self.info.meta_version == Some(2u64) ==> v2_countable(*self),
        ensures
            self.info.meta_version != Some(2u64) ==> (r matches Err(Error::Protocol(m)) && m@
                == "Not a v2 torrent"@),
            self.info.meta_version == Some(2u64) ==> match self.info.file_tree {
                None => r matches Err(Error::Protocol(m)) && m@ == "No v2 files found"@,
                Some(tree) => match v2_piece_hash(
                    tree_files(tree, Seq::empty(), 0),
                    self.info.piece_length as usize,
                    self.piece_layers,
                    index as int,
                    0,
                ) {
                    Ok(h) => r matches Ok(x) && x@ == h,
                    Err(msg) => r matches Err(Error::Protocol(m)) && m@ == msg,
                },
            },
    {
        if self.info.meta_version != Some(2u64) {
            return Err(Error::Protocol(str_to_string("Not a v2 torrent")));
        }
        let piece_len = self.info.piece_length as usize;
        let files = match self.flatten_v2_files() {
            Some(f) => f,
            None => {
                return Err(Error::Protocol(str_to_string("No v2 files found")));
            },
        };
        let ghost views = file_views(files@);
        let ghost lens = lengths_of(views);
        proof {
            let tree = self.info.file_tree->Some_0;
            lemma_tree_lengths(tree, Seq::empty(), 0);
            assert(views.subrange(0, views.len() as int) =~= views);
        }
        let mut offset: usize = 0;
        let mut i: usize = 0;
        while i < files.len()
            invariant
                i <= files@.len(),
                self.info.meta_version == Some(2u64),
                self.info.file_tree is Some,
                piece_len == self.info.piece_length as usize,
                views == tree_files(self.info.file_tree->Some_0, Seq::empty(), 0),
                views == file_views(files@),
                lens == lengths_of(views),
                pieces_divisible(lens, piece_len),
                sum_pieces(lens, piece_len) <= usize::MAX,
                offset == sum_pieces(lens.take(i as int), piece_len),
                v2_piece_hash(views, piece_len, self.piece_layers, index as int, 0) == v2_piece_hash(
                    views.subrange(i as int, views.len() as int),
                    piece_len,
                    self.piece_layers,
                    index as int,
                    offset as int,
                ),
            decreases files@.len() - i,
        {
            proof {
                lemma_sum_pieces_prefix(lens, piece_len, i + 1);
                assert(lens.take(i + 1).drop_last() =~= lens.take(i as int));
                let rest = views.subrange(i as int, views.len() as int);
                assert(rest[0] == views[i as int]);
                assert(rest.subrange(1, rest.len() as int) =~= views.subrange(i + 1, views.len() as int));
            }
            let file = &files[i];
            let fp = file_piece_count(file.length, piece_len);
            if index >= offset && index < offset + fp {
                proof {
                    let rest = views.subrange(i as int, views.len() as int);
                    assert(rest[0] == files@[i as int]@);
                    assert(fp == file_pieces(rest[0].length, piece_len));
                    assert(v2_piece_hash(rest, piece_len, self.piece_layers, index as int, offset as int)
                        == file_piece_hash(rest[0], fp as int, self.piece_layers, index - offset));
                }
                return file_hash(file, fp, &self.piece_layers, index - offset);
            }
            offset = offset + fp;
            i = i + 1;
        }
        Err(Error::Protocol(str_to_string("Piece index out of range for v2")))
    }

    /// The v1 info hash: the SHA-1 digest of the bencoded `info` dictionary
    /// (`info_bytes`), for a torrent that lists v1 piece hashes.
    pub fn info_hash_v1(&self, info_bytes: &[u8]) -> (r: Option<[u8; 20]>)
        ensures
            match self.info.pieces {
                None => r is None,
                Some(_) => r matches Some(h) && h@ == sha1_digest(info_bytes@),
            },
    {
        if self.info.pieces.is_none() {
            return None;
        }
        Some(sha1(info_bytes))
    }

    /// The v2 info hash: the SHA-256 digest of the bencoded `info` dictionary
    /// (`info_bytes`), for a torrent of meta version 2.
    pub fn info_hash_v2(&self, info_bytes: &[u8]) -> (r: Option<[u8; 32]>)
        ensures
            self.info.meta_version == Some(2u64) ==> (r matches Some(h) && h@ == sha256_digest(
                info_bytes@,
            )),
            self.info.meta_version != Some(2u64) ==> r is None,
    {
        if self.info.meta_version != Some(2u64) {
            return None;
        }
        Some(sha256(info_bytes))
    }
}

/// The number of pieces of `piece_len` bytes that a file of `length` bytes takes.
fn file_piece_count(length: u64, piece_len: usize) -> (r: usize)
    requires
        length != 0 ==> piece_len > 0,
        file_pieces(length, piece_len) <= usize::MAX,
    ensures
        r == file_pieces(length, piece_len),
{
    if length == 0 {
        0
    } else {
        let l = length as usize;
        if l % piece_len == 0 {
            l / piece_len
        } else {
            l / piece_len + 1
        }
    }
}

/// The hash of the `k`-th piece of `file`, which takes `fp` pieces.
fn file_hash(file: &V2File, fp: usize, layers: &Option<BValue>, k: usize) -> (r: Result<[u8; 32], Error>)
    ensures
        match file_piece_hash(file@, fp as int, *layers, k as int) {
            Ok(h) => r matches Ok(x) && x@ == h,
            Err(msg) => r matches Err(Error::Protocol(m)) && m@ == msg,
        },
{
    let root = match &file.pieces_root {
        Some(r) => r,
        None => {
            return Err(Error::Protocol(str_to_string("Missing pieces root")));
        },
    };
    if root.len() != 32 {
        return Err(Error::Protocol(str_to_string("Invalid pieces root length")));
    }
    if fp == 1 {
        proof {
            assert(root@.subrange(0, 32) =~= root@);
        }
        return Ok(take32(root.as_slice(), 0));
    }
    match layers {
        None => Err(Error::Protocol(str_to_string("Missing piece layers"))),
        Some(BValue::Dict(dict)) => match dict_get(dict, root.as_slice()) {
            None => Err(Error::Protocol(str_to_string("Missing piece layer for file"))),
            Some(BValue::Bytes(layer)) => {
                if k > (usize::MAX - 32) / 32 || k * 32 + 32 > layer.len() {
                    proof {
                        if k > (usize::MAX - 32) / 32 {
                            lemma_step_past(k as int, 32, usize::MAX as int);
                        }
                        assert(k * 32 + 32 > layer.len());
                    }
                    return Err(Error::Protocol(str_to_string("Piece layer too short")));
                }
                Ok(take32(layer.as_slice(), k * 32))
            },
            Some(_) => Err(Error::Protocol(str_to_string("Invalid piece layers format"))),
        },
        Some(_) => Err(Error::Protocol(str_to_string("Invalid piece layers format"))),
    }
}

} // verus!
