//! Reading the contents of backup volumes: parsing the paths of volume
//! entries, deciding which blocks to read and cache, and caching blocks.

pub mod cache;
pub mod stream;
pub mod volume;

use vstd::prelude::*;
use crate::bytes::{Order3, bytes_eq, bytes_order, bytes_order_exec};
use crate::collections::{BackupChain, BackupSet};
use crate::signatures::DiffType;
use crate::manifest::{Manifest, first_volume_order, search_ordered};
use crate::read::stream::{first_index, last_index, lit};

verus! {

/// The path of a file in the path of a volume entry: after the kind
/// (`deleted`, `diff`, `snapshot`), or between the kind and the block
/// number (`multivol_diff`, `multivol_snapshot`).
pub open spec fn spec_extract_path(raw: Seq<u8>) -> Option<Seq<u8>> {
    match first_index(raw, 47) {
        None => None,
        Some(pos) => {
            let first = raw.subrange(0, pos);
            let rest = raw.subrange(pos, raw.len() as int);
            if rest.len() < 2 {
                None
            } else if first == lit("multivol_diff"@) || first == lit("multivol_snapshot"@) {
                match last_index(rest, 47) {
                    Some(p) => if p > 1 {
                        Some(rest.subrange(1, p))
                    } else {
                        None
                    },
                    None => None,
                }
            } else if first == lit("deleted"@) || first == lit("diff"@) || first == lit("snapshot"@) {
                Some(rest.subrange(1, rest.len() as int))
            } else {
                None
            }
        },
    }
}

/// Extracts the path of the file from the path of a volume entry (see
/// `spec_extract_path`).
pub fn extract_path(raw_path: &[u8]) -> (r: Option<&[u8]>)
    ensures
        match r {
            Some(p) => spec_extract_path(raw_path@) == Some(p@),
            None => spec_extract_path(raw_path@) is None,
        },
{
    let n = raw_path.len();
    let mut pos: usize = 0;
    while pos < n && raw_path[pos] != 47
        invariant
            pos <= n,
            n == raw_path@.len(),
            forall|k: int| 0 <= k < pos ==> raw_path@[k] != 47u8,
        decreases n - pos,
    {
        pos = pos + 1;
    }
    proof {
        crate::bytes::lemma_first_index_of(raw_path@, 0, 47u8);
        let fe = crate::bytes::first_index_of(raw_path@, 0, 47u8);
        assert(fe == pos) by {
            if fe < pos {
                assert(raw_path@[fe] == 47u8);
            }
        }
    }
    if pos == n {
        return None;
    }
    let first = &raw_path[0..pos];
    let rest = &raw_path[pos..n];
    if rest.len() < 2 {
        return None;
    }
    if bytes_eq(first, "multivol_diff".as_bytes()) || bytes_eq(first, "multivol_snapshot".as_bytes()) {
        let m = rest.len();
        let mut i = m;
        assert(rest@.subrange(0, m as int) =~= rest@);
        while i > 0 && rest[i - 1] != 47
            invariant
                i <= m,
                m == rest@.len(),
                last_index(rest@, 47) == last_index(rest@.subrange(0, i as int), 47),
            decreases i,
        {
            assert(rest@.subrange(0, i as int).drop_last() =~= rest@.subrange(0, i - 1));
            i = i - 1;
        }
        if i == 0 {
            assert(rest@.subrange(0, 0) =~= Seq::<u8>::empty());
            return None;
        }
        assert(rest@.subrange(0, i as int).last() == rest@[i - 1]);
        let p = i - 1;
        if p > 1 {
            Some(&rest[1..p])
        } else {
            None
        }
    } else if bytes_eq(first, "deleted".as_bytes()) || bytes_eq(first, "diff".as_bytes())
        || bytes_eq(first, "snapshot".as_bytes()) {
        Some(&rest[1..rest.len()])
    } else {
        None
    }
}

/// What reading the blocks of a file does with an entry of a volume.
#[derive(Clone, Copy, Debug, PartialEq, Eq, Structural)]
pub enum BlockEntryStep {
    /// The entry holds a block of the file: read it.
    Take,
    /// The entry comes after the file: the file's blocks are over.
    Stop,
    /// The entry comes before the file: go on to the next.
    Skip,
}

/// What reading the blocks of the file at `path` does with a volume entry:
/// entries come in order of the paths they hold, so an entry of the file
/// is taken, one after it stops the reading, and one before it (or with
/// no file path) is passed over.
pub open spec fn spec_block_entry_step(entry_path: Seq<u8>, path: Seq<u8>) -> BlockEntryStep {
    match spec_extract_path(entry_path) {
        None => BlockEntryStep::Skip,
        Some(p) => match bytes_order(p, path) {
            Order3::Equal => BlockEntryStep::Take,
            Order3::Greater => BlockEntryStep::Stop,
            Order3::Less => BlockEntryStep::Skip,
        },
    }
}

/// What reading the blocks of the file at `path` does with the volume
/// entry at `entry_path` (see `spec_block_entry_step`).
pub fn block_entry_step(entry_path: &[u8], path: &[u8]) -> (r: BlockEntryStep)
    ensures
        r == spec_block_entry_step(entry_path@, path@),
{
    match extract_path(entry_path) {
        None => BlockEntryStep::Skip,
        Some(p) => match bytes_order_exec(p, path) {
            Order3::Equal => BlockEntryStep::Take,
            Order3::Greater => BlockEntryStep::Stop,
            Order3::Less => BlockEntryStep::Skip,
        },
    }
}

/// Volume `i` (counted from one) of the manifest holds the path.
pub open spec fn volume_holds(m: crate::manifest::ManifestView, path: Seq<u8>, i: int) -> bool {
    1 <= i <= m.volumes.len() && first_volume_order(m.volumes[i - 1], path) == crate::bytes::Order3::Equal
}

/// At most one volume of the manifest holds the path.
pub open spec fn volume_unique(m: crate::manifest::ManifestView, path: Seq<u8>) -> bool {
    forall|i: int, j: int| volume_holds(m, path, i) && volume_holds(m, path, j) ==> i == j
}

/// The file of a volume of a backup set that holds a path, as the manifest
/// of the set tells.
pub fn volume_path_of_entry<'a>(set: &'a BackupSet, manifest: &Manifest, entry_path: &[u8]) -> (r: Option<&'a str>)
    ensures
        r matches Some(p) ==> exists|i: int|
            {
                &&& #[trigger] volume_holds(manifest@, entry_path@, i)
                &&& i <= i32::MAX
                &&& set@.volumes.contains_key(i as i32)
                &&& p@ == set@.volumes[i as i32]
            },
        r is None && search_ordered(manifest@.volumes, entry_path@, true) && volume_unique(
            manifest@,
            entry_path@,
        ) ==> forall|i: int|
            #[trigger] volume_holds(manifest@, entry_path@, i) ==> !(i <= i32::MAX
                && set@.volumes.contains_key(i as i32)),
{
    let vol_num = match manifest.first_volume_of_path(entry_path) {
        Some(n) => n,
        None => {
            proof {
                if search_ordered(manifest@.volumes, entry_path@, true) {
                    assert forall|i: int| #[trigger] volume_holds(manifest@, entry_path@, i) implies false by {
                        assert(first_volume_order(manifest@.volumes[i - 1], entry_path@)
                            != crate::bytes::Order3::Equal);
                    }
                }
            }
            return None;
        },
    };
    assert(volume_holds(manifest@, entry_path@, vol_num as int));
    if vol_num > 0x7fff_ffff {
        return None;
    }
    let r = set.volume_path(vol_num as i32);
    r
}

/// Why the volume of a block cannot be opened.
#[derive(Clone, Copy, Debug, PartialEq, Eq, Structural)]
pub enum VolumeError {
    /// The backup chain has no set at that position.
    SetNotFound(usize),
    /// The set has no volume of that number.
    NoVolumePath(usize),
    /// The set is encrypted, which is not supported.
    Encrypted,
}

/// The file of volume `volnum` of set `snapnum` of a backup chain (the full
/// set is set zero), and whether it is compressed.
pub fn volume_source(chain: &BackupChain, snapnum: usize, volnum: usize) -> (r: Result<(&str, bool), VolumeError>)
    ensures
        ({
            let c = chain@;
            if snapnum > c.incsets.len() {
                r == Err::<(&str, bool), VolumeError>(VolumeError::SetNotFound(snapnum))
            } else {
                let set = if snapnum == 0 {
                    c.fullset
                } else {
                    c.incsets[snapnum - 1]
                };
                if volnum > i32::MAX || !set.volumes.contains_key(volnum as i32) {
                    r == Err::<(&str, bool), VolumeError>(VolumeError::NoVolumePath(volnum))
                } else if set.encrypted {
                    r == Err::<(&str, bool), VolumeError>(VolumeError::Encrypted)
                } else {
                    r matches Ok((p, z)) && p@ == set.volumes[volnum as i32] && z == set.compressed
                }
            }
        }),
{
    let set = match chain.nth_set(snapnum) {
        Some(s) => s,
        None => {
            return Err(VolumeError::SetNotFound(snapnum));
        },
    };
    if volnum > 0x7fff_ffff {
        return Err(VolumeError::NoVolumePath(volnum));
    }
    let path = match set.volume_path(volnum as i32) {
        Some(p) => p,
        None => {
            return Err(VolumeError::NoVolumePath(volnum));
        },
    };
    if set.is_encrypted() {
        return Err(VolumeError::Encrypted);
    }
    Ok((path, set.is_compressed()))
}

/// The stream that gives the blocks of an entry.
#[derive(Clone, Copy, Debug, PartialEq, Eq, Structural)]
pub enum StreamKind {
    /// An empty stream.
    Null,
    /// The blocks of a snapshot of the file.
    Snapshot,
}

/// The stream for an entry of a signature chain: empty for an entry known
/// to be empty or that is not a snapshot, else the blocks of the snapshot
/// (entries that hold a difference cannot be read yet).
pub fn stream_kind(size_hint: Option<(usize, usize)>, diff_type: DiffType) -> (r: StreamKind)
    requires
        diff_type == DiffType::Signature ==> (size_hint matches Some((_, max)) && max == 0),
    ensures
        r == if size_hint matches Some((_, max)) && max == 0 {
            StreamKind::Null
        } else if diff_type == DiffType::Snapshot {
            StreamKind::Snapshot
        } else {
            StreamKind::Null
        },
{
    if let Some((_, max)) = size_hint {
        if max == 0 {
            return StreamKind::Null;
        }
    }
    match diff_type {
        DiffType::Snapshot => StreamKind::Snapshot,
        _ => StreamKind::Null,
    }
}

} // verus!
pub mod unslist;
