//! Blocks of a file in backup volumes.
//!
//! A file of a snapshot is stored in volume archives as one entry, or as
//! numbered blocks (`multivol_snapshot/path/1`, `.../2`, ...). Reading a
//! block walks the entries of its volume and reads the following blocks
//! ahead.

use vstd::prelude::*;
use crate::bytes::{Order3, bytes_eq, slice_to_vec};
use crate::rawpath::{RawPath, path_order, path_order_exec};
use crate::text::{spec_parse_unsigned, str_from_utf8, usize_from_str};

verus! {

/// The kind of an entry of a volume, with its block number for multivolume
/// ones (counted from zero).
#[derive(Clone, Copy, Debug, PartialEq, Eq, Structural)]
pub enum BlockType {
    MultivolSignature(usize),
    MultivolSnapshot(usize),
    Signature,
    Snapshot,
    Deleted,
}

/// The path of a volume entry: the path of the file, and the kind of the
/// entry.
#[derive(Debug, PartialEq, Eq)]
pub struct BlockPath {
    pub entry_path: RawPath,
    pub block_type: BlockType,
}

/// What the path of a volume entry holds.
pub struct BlockPathView {
    pub entry_path: Seq<u8>,
    pub block_type: BlockType,
}

impl View for BlockPath {
    type V = BlockPathView;

    open spec fn view(&self) -> BlockPathView {
        BlockPathView { entry_path: self.entry_path@, block_type: self.block_type }
    }
}

impl BlockType {
    /// The block number of a multivolume entry.
    pub fn block_num(&self) -> (r: Option<usize>)
        ensures
            r == match *self {
                BlockType::MultivolSignature(n) | BlockType::MultivolSnapshot(n) => Some(n),
                _ => None,
            },
    {
        match *self {
            BlockType::MultivolSignature(n) | BlockType::MultivolSnapshot(n) => Some(n),
            _ => None,
        }
    }
}

/// The position of the first `b` in `s`, if any.
pub open spec fn first_index(s: Seq<u8>, b: u8) -> Option<int> {
    let i = crate::bytes::first_index_of(s, 0, b);
    if i < s.len() {
        Some(i)
    } else {
        None
    }
}

/// The position of the last `b` in `s`, if any.
pub open spec fn last_index(s: Seq<u8>, b: u8) -> Option<int>
    decreases s.len(),
{
    if s.len() == 0 {
        None
    } else if s.last() == b {
        Some(s.len() - 1)
    } else {
        last_index(s.drop_last(), b)
    }
}

pub proof fn lemma_last_index(s: Seq<u8>, b: u8)
    ensures
        last_index(s, b) matches Some(i) ==> 0 <= i < s.len() && s[i] == b && forall|k: int|
            i < k < s.len() ==> s[k] != b,
        last_index(s, b) is None ==> forall|k: int| 0 <= k < s.len() ==> s[k] != b,
    decreases s.len(),
{
    if s.len() > 0 && s.last() != b {
        lemma_last_index(s.drop_last(), b);
        assert forall|k: int| 0 <= k < s.len() - 1 implies s[k] == s.drop_last()[k] by {}
    }
}

/// The path without its leading separator and, when it is not the only
/// byte, its trailing one.
pub open spec fn spec_strip_trailing_slash(path: Seq<u8>) -> Seq<u8> {
    if path.len() > 1 && path.last() == 47 {
        path.subrange(1, path.len() - 1)
    } else {
        path.subrange(1, path.len() as int)
    }
}

/// Takes off the leading separator of a path that starts with one, and its
/// trailing separator.
pub fn strip_trailing_slash(path: &[u8]) -> (r: &[u8])
    requires
        path@.len() > 0,
        path@[0] == 47,
    ensures
        r@ == spec_strip_trailing_slash(path@),
{
    let n = path.len();
    if n > 1 && path[n - 1] == 47 {
        &path[1..n - 1]
    } else {
        &path[1..n]
    }
}

/// The number after the last separator of a path, with the path up to
/// that separator (included).
pub open spec fn spec_strip_block_num(path: Seq<u8>) -> Option<(Seq<u8>, int)> {
    match last_index(path, 47) {
        None => None,
        Some(pos) => {
            let num = path.subrange(pos + 1, path.len() as int);
            if vstd::utf8::valid_utf8(num) {
                match spec_parse_unsigned(vstd::utf8::decode_utf8(num), usize::MAX as int) {
                    Some(n) => Some((path.subrange(0, pos + 1), n)),
                    None => None,
                }
            } else {
                None
            }
        },
    }
}

/// Splits off the block number at the end of a path (see
/// `spec_strip_block_num`).
pub fn strip_block_num(path: &[u8]) -> (r: Option<(&[u8], usize)>)
    ensures
        match r {
            Some((p, n)) => spec_strip_block_num(path@) == Some((p@, n as int)),
            None => spec_strip_block_num(path@) is None,
        },
{
    let n = path.len();
    let mut i = n;
    proof {
        lemma_last_index(path@, 47);
        assert(path@.subrange(0, n as int) =~= path@);
    }
    while i > 0 && path[i - 1] != 47
        invariant
            i <= n,
            n == path@.len(),
            last_index(path@, 47) == last_index(path@.subrange(0, i as int), 47),
        decreases i,
    {
        assert(path@.subrange(0, i as int).drop_last() =~= path@.subrange(0, i - 1));
        i = i - 1;
    }
    if i == 0 {
        assert(path@.subrange(0, 0) =~= Seq::<u8>::empty());
        return None;
    }
    assert(path@.subrange(0, i as int).last() == path@[i - 1]);
    let num_b = &path[i..n];
    let text = match str_from_utf8(num_b) {
        Ok(t) => t,
        Err(_) => {
            return None;
        },
    };
    match usize_from_str(text) {
        Ok(num) => Some((&path[0..i], num)),
        Err(_) => None,
    }
}

/// The bytes of a text.
pub open spec fn lit(s: Seq<char>) -> Seq<u8> {
    vstd::utf8::encode_utf8(s)
}

/// A multivolume entry of block number zero, which has no block.
pub open spec fn zero_block(path: Seq<u8>) -> bool {
    match first_index(path, 47) {
        Some(pos) => {
            let first = path.subrange(0, pos);
            &&& (first == lit("multivol_signature"@) || first == lit("multivol_snapshot"@))
            &&& spec_strip_block_num(path.subrange(pos, path.len() as int)) matches Some((_, n))
            &&& n == 0
        },
        None => false,
    }
}

/// What the path of a volume entry says: its first component gives the
/// kind (`deleted`, `signature`, `snapshot`, or `multivol_signature` and
/// `multivol_snapshot` followed by a block number counted from one); the
/// rest, without its leading and trailing separators, is the file's path.
pub open spec fn spec_parse_block_path(path: Seq<u8>) -> Option<BlockPathView> {
    match first_index(path, 47) {
        None => None,
        Some(pos) => {
            let first = path.subrange(0, pos);
            let rest = path.subrange(pos, path.len() as int);
            if first == lit("deleted"@) {
                Some(BlockPathView { entry_path: spec_strip_trailing_slash(rest), block_type: BlockType::Deleted })
            } else if first == lit("signature"@) {
                Some(BlockPathView { entry_path: spec_strip_trailing_slash(rest), block_type: BlockType::Signature })
            } else if first == lit("snapshot"@) {
                Some(BlockPathView { entry_path: spec_strip_trailing_slash(rest), block_type: BlockType::Snapshot })
            } else if first == lit("multivol_signature"@) || first == lit("multivol_snapshot"@) {
                match spec_strip_block_num(rest) {
                    Some((p, n)) => Some(BlockPathView {
                        entry_path: spec_strip_trailing_slash(p),
                        block_type: if first == lit("multivol_signature"@) {
                            BlockType::MultivolSignature((n - 1) as usize)
                        } else {
                            BlockType::MultivolSnapshot((n - 1) as usize)
                        },
                    }),
                    None => None,
                }
            } else {
                None
            }
        },
    }
}

/// Whether the path is that of a multivolume entry of block number zero.
pub fn zero_block_exec(path: &[u8]) -> (r: bool)
    ensures
        r == zero_block(path@),
{
    let n = path.len();
    let mut pos: usize = 0;
    while pos < n && path[pos] != 47
        invariant
            pos <= n,
            n == path@.len(),
            forall|k: int| 0 <= k < pos ==> path@[k] != 47u8,
        decreases n - pos,
    {
        pos = pos + 1;
    }
    proof {
        crate::bytes::lemma_first_index_of(path@, 0, 47u8);
        let fe = crate::bytes::first_index_of(path@, 0, 47u8);
        assert(fe == pos) by {
            if fe < pos {
                assert(path@[fe] == 47u8);
            }
        }
    }
    if pos == n {
        return false;
    }
    let first = &path[0..pos];
    if !bytes_eq(first, "multivol_signature".as_bytes()) && !bytes_eq(first, "multivol_snapshot".as_bytes()) {
        return false;
    }
    match strip_block_num(&path[pos..n]) {
        Some((_, num)) => num == 0,
        None => false,
    }
}

/// Parses the path of a volume entry (see `spec_parse_block_path`).
pub fn parse_block_path(path: &[u8]) -> (r: Option<BlockPath>)
    requires
        !zero_block(path@),
    ensures
        match r {
            Some(bp) => spec_parse_block_path(path@) == Some(bp@),
            None => spec_parse_block_path(path@) is None,
        },
{
    let n = path.len();
    let mut pos: usize = 0;
    while pos < n && path[pos] != 47
        invariant
            pos <= n,
            n == path@.len(),
            forall|k: int| 0 <= k < pos ==> path@[k] != 47u8,
        decreases n - pos,
    {
        pos = pos + 1;
    }
    proof {
        crate::bytes::lemma_first_index_of(path@, 0, 47u8);
        let fe = crate::bytes::first_index_of(path@, 0, 47u8);
        assert(fe == pos) by {
            if fe < pos {
                assert(path@[fe] == 47u8);
            }
        }
    }
    if pos == n {
        return None;
    }
    let first = &path[0..pos];
    let rest = &path[pos..n];
    assert(rest@[0] == 47u8);
    let (p, t) = if bytes_eq(first, "deleted".as_bytes()) {
        (rest, BlockType::Deleted)
    } else if bytes_eq(first, "signature".as_bytes()) {
        (rest, BlockType::Signature)
    } else if bytes_eq(first, "snapshot".as_bytes()) {
        (rest, BlockType::Snapshot)
    } else {
        let sig = bytes_eq(first, "multivol_signature".as_bytes());
        if !sig && !bytes_eq(first, "multivol_snapshot".as_bytes()) {
            return None;
        }
        let (p, num) = match strip_block_num(rest) {
            Some(x) => x,
            None => {
                return None;
            },
        };
        proof {
            lemma_last_index(rest@, 47);
        }
        assert(p@.len() > 0 && p@[0] == 47u8) by {
            assert(p@[0] == rest@[0]);
        }
        if sig {
            (p, BlockType::MultivolSignature(num - 1))
        } else {
            (p, BlockType::MultivolSnapshot(num - 1))
        }
    };
    let stripped = strip_trailing_slash(p);
    Some(BlockPath { entry_path: RawPath::from_bytes(slice_to_vec(stripped)), block_type: t })
}

/// Why a block cannot be read.
#[derive(Clone, Copy, Debug, PartialEq, Eq, Structural)]
pub enum StreamError {
    /// A block other than the first was asked of an empty stream.
    NullStreamBlock(usize),
    /// No volume holds the block.
    VolumeNotFound(usize),
    /// The volume that should hold the block cannot be opened.
    VolumeNotOpened(usize, usize),
    /// The volume does not hold the block.
    BlockNotFound(usize, usize),
}

/// A stream of blocks that can be positioned on a block.
pub trait BlockStream {
    /// The block that the next read gives.
    spec fn current_block(&self) -> usize;

    /// The blocks that the stream has: those up to this one.
    spec fn last_block(&self) -> usize;

    /// Positions the stream on block `n`, which must exist.
    fn seek_to_block(&mut self, n: usize) -> (r: Result<(), StreamError>)
        ensures
            n <= old(self).last_block() ==> r is Ok && final(self).current_block() == n,
            n > old(self).last_block() ==> r is Err && final(self).current_block() == old(self).current_block(),
            final(self).last_block() == old(self).last_block(),
    ;
}

/// The stream of an empty file: it has only block zero, which is empty.
#[derive(Clone, Copy, Debug)]
pub struct NullStream;

impl BlockStream for NullStream {
    open spec fn current_block(&self) -> usize {
        0
    }

    open spec fn last_block(&self) -> usize {
        0
    }

    fn seek_to_block(&mut self, n: usize) -> (r: Result<(), StreamError>) {
        if n == 0 {
            Ok(())
        } else {
            Err(StreamError::NullStreamBlock(n))
        }
    }
}

/// The number of blocks read ahead after the one asked for.
pub const NUM_READAHEAD_SNAP: usize = 9;

/// The stream of the blocks of a file of a snapshot, stored in volumes.
#[derive(Debug)]
pub struct SnapshotStream {
    path: RawPath,
    entry_id: (usize, u8),
    max_block: usize,
    curr_block: usize,
}

/// What a snapshot stream holds.
pub struct SnapshotStreamView {
    pub path: Seq<u8>,
    pub entry_id: (usize, u8),
    pub max_block: usize,
    pub curr_block: usize,
}

impl View for SnapshotStream {
    type V = SnapshotStreamView;

    closed spec fn view(&self) -> SnapshotStreamView {
        SnapshotStreamView {
            path: self.path@,
            entry_id: self.entry_id,
            max_block: self.max_block,
            curr_block: self.curr_block,
        }
    }
}

impl BlockStream for SnapshotStream {
    open spec fn current_block(&self) -> usize {
        self@.curr_block
    }

    open spec fn last_block(&self) -> usize {
        self@.max_block
    }

    fn seek_to_block(&mut self, n: usize) -> (r: Result<(), StreamError>) {
        if n > self.max_block {
            Err(StreamError::VolumeNotFound(n))
        } else {
            self.curr_block = n;
            Ok(())
        }
    }
}

/// How far reading a block has gone through the entries of a volume.
#[derive(Clone, Copy, Debug, PartialEq, Eq, Structural)]
pub struct BlockRead {
    /// The blocks found so far.
    pub n_found: usize,
    /// The block the next entry should hold.
    pub curr_block: usize,
}

/// What reading a block does with an entry of a volume.
#[derive(Clone, Copy, Debug, PartialEq, Eq, Structural)]
pub enum ReadAction {
    /// Pass over the entry.
    Skip,
    /// Stop reading the volume.
    Stop,
    /// Read the entry: it holds the block asked for.
    ReadBlock,
    /// Read the entry into the cache: it holds a block read ahead.
    CacheBlock,
    /// The entry holds a block read ahead that is cached already.
    Keep,
}

/// The block number of an entry: zero when it has none.
pub open spec fn block_num_or_zero(t: BlockType) -> usize {
    match t {
        BlockType::MultivolSignature(n) | BlockType::MultivolSnapshot(n) => n,
        _ => 0,
    }
}

/// A step of reading a block of the file at `target`: what to do with the
/// next entry of the volume (`None` when it cannot be read; `cached` tells
/// whether the block it would give is cached already), and the new state.
pub open spec fn spec_read_step(st: BlockRead, target: Seq<u8>, path: Option<Seq<u8>>, cached: bool) -> (BlockRead, ReadAction) {
    match path {
        None => (st, if st.n_found > 0 { ReadAction::Stop } else { ReadAction::Skip }),
        Some(p) => match spec_parse_block_path(p) {
            None => (st, ReadAction::Skip),
            Some(bp) => {
                if st.n_found > NUM_READAHEAD_SNAP {
                    (st, ReadAction::Stop)
                } else if st.n_found == 0 && path_order(bp.entry_path, target) == Order3::Less {
                    (st, ReadAction::Skip)
                } else if st.n_found == 0 && path_order(bp.entry_path, target) == Order3::Greater {
                    (st, ReadAction::Stop)
                } else if st.n_found == 0 && block_num_or_zero(bp.block_type) != st.curr_block {
                    (st, ReadAction::Skip)
                } else {
                    (
                        BlockRead { n_found: (st.n_found + 1) as usize, curr_block: (st.curr_block + 1) as usize },
                        if st.n_found == 0 {
                            ReadAction::ReadBlock
                        } else if !cached {
                            ReadAction::CacheBlock
                        } else {
                            ReadAction::Keep
                        },
                    )
                }
            },
        },
    }
}

/// The start of reading a block: nothing is left past the last block;
/// otherwise the walk starts at the current block.
pub open spec fn spec_read_start(s: SnapshotStreamView) -> Option<BlockRead> {
    if s.curr_block > s.max_block {
        None
    } else {
        Some(BlockRead { n_found: 0, curr_block: s.curr_block })
    }
}

impl SnapshotStream {
    /// A stream of the blocks `0..=max_block` of the file at `path`.
    pub fn new(path: RawPath, entry_id: (usize, u8), max_block: usize) -> (r: Self)
        ensures
            r@ == (SnapshotStreamView { path: path@, entry_id, max_block, curr_block: 0 }),
    {
        SnapshotStream { path, entry_id, max_block, curr_block: 0 }
    }

    /// The file whose blocks the stream gives.
    pub fn path(&self) -> (r: &RawPath)
        ensures
            r@ == self@.path,
    {
        &self.path
    }

    /// The identity of the entry, for the cache.
    pub fn entry_id(&self) -> (r: (usize, u8))
        ensures
            r == self@.entry_id,
    {
        self.entry_id
    }

    /// Starts reading the current block; `None` at the end of the stream.
    pub fn read_start(&self) -> (r: Option<BlockRead>)
        ensures
            r == spec_read_start(self@),
    {
        if self.curr_block > self.max_block {
            None
        } else {
            Some(BlockRead { n_found: 0, curr_block: self.curr_block })
        }
    }

    /// Decides what to do with the next entry of the volume (see
    /// `spec_read_step`).
    pub fn read_step(&self, st: BlockRead, path: Option<&[u8]>, cached: bool) -> (r: (BlockRead, ReadAction))
        requires
            st.curr_block < usize::MAX,
            st.n_found <= NUM_READAHEAD_SNAP + 1,
            path matches Some(p) ==> !zero_block(p@),
        ensures
            r == spec_read_step(
                st,
                self@.path,
                match path {
                    Some(p) => Some(p@),
                    None => None,
                },
                cached,
            ),
            r.0.n_found <= NUM_READAHEAD_SNAP + 1,
    {
        let p = match path {
            None => {
                return (st, if st.n_found > 0 { ReadAction::Stop } else { ReadAction::Skip });
            },
            Some(p) => p,
        };
        let bp = match parse_block_path(p) {
            None => {
                return (st, ReadAction::Skip);
            },
            Some(bp) => bp,
        };
        if st.n_found > NUM_READAHEAD_SNAP {
            return (st, ReadAction::Stop);
        }
        if st.n_found == 0 {
            match path_order_exec(bp.entry_path.as_bytes(), self.path.as_bytes()) {
                Order3::Less => {
                    return (st, ReadAction::Skip);
                },
                Order3::Greater => {
                    return (st, ReadAction::Stop);
                },
                Order3::Equal => {
                    let n = match bp.block_type.block_num() {
                        Some(n) => n,
                        None => 0,
                    };
                    if n != st.curr_block {
                        return (st, ReadAction::Skip);
                    }
                },
            }
        }
        let action = if st.n_found == 0 {
            ReadAction::ReadBlock
        } else if !cached {
            ReadAction::CacheBlock
        } else {
            ReadAction::Keep
        };
        (BlockRead { n_found: st.n_found + 1, curr_block: st.curr_block + 1 }, action)
    }

    /// Ends reading a block: the stream moves past the blocks found, and
    /// the read fails when none was found in volume `vol_num`.
    pub fn read_finish(&mut self, st: BlockRead, vol_num: usize) -> (r: Result<(), StreamError>)
        ensures
            final(self)@ == (SnapshotStreamView { curr_block: st.curr_block, ..old(self)@ }),
            r is Ok <==> st.n_found > 0,
            st.n_found == 0 ==> r == Err::<(), StreamError>(StreamError::BlockNotFound(st.curr_block, vol_num)),
    {
        self.curr_block = st.curr_block;
        if st.n_found > 0 {
            Ok(())
        } else {
            Err(StreamError::BlockNotFound(st.curr_block, vol_num))
        }
    }
}

} // verus!
