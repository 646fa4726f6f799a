//! The entries of volume archives: what their paths say, and which of them
//! go into the block caches.

use vstd::prelude::*;
use crate::bytes::{bytes_eq, slice_to_vec};
use crate::read::cache::BlockId;
use crate::read::stream::{first_index, last_index, lemma_last_index, lit};
use crate::text::{spec_parse_unsigned, str_from_utf8, usize_from_str};

verus! {

/// The kind of a volume entry.
#[derive(Clone, Copy, Debug, PartialEq, Eq, Structural)]
pub enum EntryType {
    /// A deleted file.
    Deleted,
    /// A difference against an earlier snapshot.
    Diff,
    /// The full contents of a file.
    Snapshot,
}

/// What the path of a volume entry says: the file's path, its block number
/// (for multivolume entries) and its kind.
#[derive(Debug)]
pub struct EntryInfo {
    pub path: Vec<u8>,
    pub block_num: Option<usize>,
    pub etype: EntryType,
}

/// What an entry path says.
pub struct EntryInfoView {
    pub path: Seq<u8>,
    pub block_num: Option<usize>,
    pub etype: EntryType,
}

impl View for EntryInfo {
    type V = EntryInfoView;

    open spec fn view(&self) -> EntryInfoView {
        EntryInfoView { path: self.path@, block_num: self.block_num, etype: self.etype }
    }
}

/// The kind that the first component of a volume entry names, and whether
/// the entry is a block of a multivolume file.
pub open spec fn entry_kind(first: Seq<u8>) -> Option<(EntryType, bool)> {
    if first == lit("diff"@) {
        Some((EntryType::Diff, false))
    } else if first == lit("deleted"@) {
        Some((EntryType::Deleted, false))
    } else if first == lit("snapshot"@) {
        Some((EntryType::Snapshot, false))
    } else if first == lit("multivol_diff"@) {
        Some((EntryType::Diff, true))
    } else if first == lit("multivol_snapshot"@) {
        Some((EntryType::Snapshot, true))
    } else {
        None
    }
}

/// What the path of a volume entry says: the first component gives the
/// kind; for a multivolume entry the text after the last separator is the
/// block number (none when it is empty or not a number), and the path
/// stops before that separator, when it is not the first one.
pub open spec fn spec_entry_info(full: Seq<u8>) -> Option<EntryInfoView> {
    match first_index(full, 47) {
        None => None,
        Some(sep) => {
            let pos = sep + 1;
            match entry_kind(full.subrange(0, sep)) {
                None => None,
                Some((etype, multivol)) => {
                    let epos = if multivol {
                        last_index(full, 47)
                    } else {
                        None
                    };
                    let block_num = match epos {
                        Some(e) => if e + 1 < full.len() {
                            let num = full.subrange(e + 1, full.len() as int);
                            if vstd::utf8::valid_utf8(num) {
                                match spec_parse_unsigned(vstd::utf8::decode_utf8(num), usize::MAX as int) {
                                    Some(n) => Some(n as usize),
                                    None => None,
                                }
                            } else {
                                None
                            }
                        } else {
                            None
                        },
                        None => None,
                    };
                    let end = match epos {
                        Some(e) => if e >= pos {
                            e
                        } else {
                            full.len() as int
                        },
                        None => full.len() as int,
                    };
                    Some(EntryInfoView { path: full.subrange(pos, end), block_num, etype })
                },
            }
        },
    }
}

/// The last separator in a path, if any.
fn last_slash(full: &[u8]) -> (r: Option<usize>)
    ensures
        match r {
            Some(i) => last_index(full@, 47) == Some(i as int),
            None => last_index(full@, 47) is None,
        },
{
    let n = full.len();
    let mut i = n;
    assert(full@.subrange(0, n as int) =~= full@);
    while i > 0 && full[i - 1] != 47
        invariant
            i <= n,
            n == full@.len(),
            last_index(full@, 47) == last_index(full@.subrange(0, i as int), 47),
        decreases i,
    {
        assert(full@.subrange(0, i as int).drop_last() =~= full@.subrange(0, i - 1));
        i = i - 1;
    }
    if i == 0 {
        assert(full@.subrange(0, 0) =~= Seq::<u8>::empty());
        None
    } else {
        assert(full@.subrange(0, i as int).last() == full@[i - 1]);
        Some(i - 1)
    }
}

impl EntryInfo {
    /// Reads the path of a volume entry (see `spec_entry_info`).
    pub fn new(full_path: &[u8]) -> (r: Option<Self>)
        ensures
            match r {
                Some(info) => spec_entry_info(full_path@) == Some(info@),
                None => spec_entry_info(full_path@) is None,
            },
    {
        let n = full_path.len();
        let mut sep: usize = 0;
        while sep < n && full_path[sep] != 47
            invariant
                sep <= n,
                n == full_path@.len(),
                forall|k: int| 0 <= k < sep ==> full_path@[k] != 47u8,
            decreases n - sep,
        {
            sep = sep + 1;
        }
        proof {
            crate::bytes::lemma_first_index_of(full_path@, 0, 47u8);
            let fe = crate::bytes::first_index_of(full_path@, 0, 47u8);
            assert(fe == sep) by {
                if fe < sep {
                    assert(full_path@[fe] == 47u8);
                }
            }
        }
        if sep == n {
            return None;
        }
        let pos = sep + 1;
        let first = &full_path[0..sep];
        let (etype, multivol) = if bytes_eq(first, "diff".as_bytes()) {
            (EntryType::Diff, false)
        } else if bytes_eq(first, "deleted".as_bytes()) {
            (EntryType::Deleted, false)
        } else if bytes_eq(first, "snapshot".as_bytes()) {
            (EntryType::Snapshot, false)
        } else if bytes_eq(first, "multivol_diff".as_bytes()) {
            (EntryType::Diff, true)
        } else if bytes_eq(first, "multivol_snapshot".as_bytes()) {
            (EntryType::Snapshot, true)
        } else {
            return None;
        };
        let epos = if multivol {
            last_slash(full_path)
        } else {
            None
        };
        proof {
            lemma_last_index(full_path@, 47);
        }
        let block_num = match epos {
            Some(e) => if e + 1 < n {
                match str_from_utf8(&full_path[e + 1..n]) {
                    Ok(t) => match usize_from_str(t) {
                        Ok(v) => Some(v),
                        Err(_) => None,
                    },
                    Err(_) => None,
                }
            } else {
                None
            },
            None => None,
        };
        let end = match epos {
            Some(e) => if e >= pos {
                e
            } else {
                n
            },
            None => n,
        };
        Some(EntryInfo { path: slice_to_vec(&full_path[pos..end]), block_num, etype })
    }
}

/// Gives the identity of the entry of a snapshot stored at a path of a
/// volume, when the snapshot has it.
pub trait ResolveEntryPath {
    /// The entry (file index, snapshot index) of a path, if known.
    fn resolve(&mut self, path: &[u8]) -> Option<(usize, u8)>;
}

/// Which of the two caches a volume entry goes into.
#[derive(Clone, Copy, Debug, PartialEq, Eq, Structural)]
pub enum CacheKind {
    /// The cache of differences.
    Diff,
    /// The cache of snapshot contents.
    Snapshot,
}

/// What caching an entry asks for: the cache of its kind, the path to
/// resolve and the block number (zero when the path has no number).
/// Deleted entries and entries with a bad path ask for nothing.
pub open spec fn spec_cache_request(full: Seq<u8>) -> Option<(CacheKind, Seq<u8>, usize)> {
    match spec_entry_info(full) {
        None => None,
        Some(info) => {
            let block = match info.block_num {
                Some(b) => b,
                None => 0,
            };
            match info.etype {
                EntryType::Deleted => None,
                EntryType::Diff => Some((CacheKind::Diff, info.path, block)),
                EntryType::Snapshot => Some((CacheKind::Snapshot, info.path, block)),
            }
        },
    }
}

/// The cache, path to resolve and block number that caching an entry asks
/// for, if any.
pub fn cache_request(full_path: &[u8]) -> (r: Option<(CacheKind, Vec<u8>, usize)>)
    ensures
        match spec_cache_request(full_path@) {
            None => r is None,
            Some((k, p, b)) => r matches Some((k2, p2, b2)) && k2 == k && p2@ == p && b2 == b,
        },
{
    let info = match EntryInfo::new(full_path) {
        Some(i) => i,
        None => {
            return None;
        },
    };
    let kind = match info.etype {
        EntryType::Deleted => {
            return None;
        },
        EntryType::Diff => CacheKind::Diff,
        EntryType::Snapshot => CacheKind::Snapshot,
    };
    let block = match info.block_num {
        Some(b) => b,
        None => 0,
    };
    Some((kind, info.path, block))
}

/// Where a requested entry is cached, given what the resolver answered for
/// its path: nowhere for an unknown path, else under the resolved entry and
/// the block number.
pub fn cache_slot(kind: CacheKind, block: usize, resolved: Option<(usize, u8)>) -> (r: Option<(CacheKind, BlockId)>)
    ensures
        match resolved {
            None => r is None,
            Some(id) => r == Some((kind, (id, block))),
        },
{
    match resolved {
        Some(id) => Some((kind, (id, block))),
        None => None,
    }
}

} // verus!
