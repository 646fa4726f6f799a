//! Reading duplicity backups: file naming, backup collections, manifests and
//! signatures, with their contracts proved by Verus.
//!
//! A `Backup` gathers what the names of the files of a backup tell (its
//! collections of backup sets and signatures) and, once they have been
//! read, the signature chains and manifests of its snapshots.

pub mod backend;
pub mod bytes;
pub mod collections;
pub mod manifest;
pub mod rawpath;
pub mod read;
pub mod signatures;
pub mod sort;
pub mod tarext;
pub mod text;
pub mod time_utils;
pub mod timefmt;

use vstd::prelude::*;
use crate::collections::{
    BackupChainView, BackupSet, chain_wf, Collections, CollectionsView, count_snapshots,
    lemma_count_snapshots_prefix, name_views, spec_collections,
};
use crate::manifest::{Manifest, ManifestView};
use crate::signatures::{
    Chain, ChainView, entries_displayable, joined_lines, lines_show, remaining_entries, spec_tab_align,
};
use crate::timefmt::Timespec;

verus! {

/// A top level representation of a duplicity backup: its collections, and
/// the signature chains and manifests read so far.
#[derive(Debug)]
pub struct Backup<B> {
    backend: B,
    collections: Collections,
    signatures: Vec<Option<Chain>>,
    manifests: Vec<Option<Manifest>>,
}

/// What a backup holds.
pub struct BackupView {
    pub collections: CollectionsView,
    /// One per signature chain: the chain, once read.
    pub signatures: Seq<Option<ChainView>>,
    /// One per snapshot: its manifest, once read.
    pub manifests: Seq<Option<ManifestView>>,
}

impl<B> View for Backup<B> {
    type V = BackupView;

    closed spec fn view(&self) -> BackupView {
        BackupView {
            collections: self.collections@,
            signatures: self.signatures@.map_values(
                |c: Option<Chain>|
                    match c {
                        Some(x) => Some(x@),
                        None => None,
                    },
            ),
            manifests: self.manifests@.map_values(
                |m: Option<Manifest>|
                    match m {
                        Some(x) => Some(x@),
                        None => None,
                    },
            ),
        }
    }
}

/// A backup is well formed: one slot per signature chain and per snapshot,
/// and its snapshots can be counted.
pub open spec fn backup_wf(b: BackupView) -> bool {
    &&& b.signatures.len() == b.collections.sig_chains.len()
    &&& b.manifests.len() == count_snapshots(b.collections.backup_chains)
    &&& count_snapshots(b.collections.backup_chains) <= usize::MAX
}

/// Why the entries or the manifest of a snapshot are not available.
#[derive(Clone, Copy, Debug, PartialEq, Eq, Structural)]
pub enum SnapshotError {
    /// The backup has no signature chain for the snapshot's chain.
    NoSignatureChain(usize),
    /// The signature chain of the snapshot has not been read yet.
    SignatureChainNotRead(usize),
    /// The signature chain holds fewer snapshots than the backup chain.
    IncompleteSignatureChain,
    /// The manifest of the snapshot has not been read yet.
    ManifestNotRead(usize),
}

impl<B> Backup<B> {
    /// Opens a backup from the names of its files; no file is read.
    pub fn new(backend: B, file_names: &[&str]) -> (r: Self)
        requires
            count_snapshots(spec_collections(name_views(file_names@)).backup_chains) <= usize::MAX,
        ensures
            r.backend_value() == backend,
            r@.collections == spec_collections(name_views(file_names@)),
            r@.signatures == Seq::new(r@.collections.sig_chains.len(), |i: int| None::<ChainView>),
            r@.manifests == Seq::new(
                count_snapshots(r@.collections.backup_chains) as nat,
                |i: int| None::<ManifestView>,
            ),
            backup_wf(r@),
    {
        let collections = Collections::from_filenames(file_names);
        Self::from_collections(backend, collections)
    }

    /// Opens a backup from the names of its files, when its snapshots can
    /// be counted on this machine (see `new`); gives nothing otherwise.
    pub fn try_new(backend: B, file_names: &[&str]) -> (r: Option<Self>)
        ensures
            r is Some <==> count_snapshots(spec_collections(name_views(file_names@)).backup_chains)
                <= usize::MAX,
            r matches Some(b) ==> {
                &&& b.backend_value() == backend
                &&& b@.collections == spec_collections(name_views(file_names@))
                &&& b@.signatures == Seq::new(b@.collections.sig_chains.len(), |i: int| None::<ChainView>)
                &&& b@.manifests == Seq::new(
                    count_snapshots(b@.collections.backup_chains) as nat,
                    |i: int| None::<ManifestView>,
                )
                &&& backup_wf(b@)
            },
    {
        let collections = Collections::from_filenames(file_names);
        match collections.checked_num_snapshots() {
            Some(_) => Some(Self::from_collections(backend, collections)),
            None => None,
        }
    }

    /// A backup of the given collections, with no file read yet.
    fn from_collections(backend: B, collections: Collections) -> (r: Self)
        requires
            count_snapshots(collections@.backup_chains) <= usize::MAX,
        ensures
            r.backend_value() == backend,
            r@.collections == collections@,
            r@.signatures == Seq::new(r@.collections.sig_chains.len(), |i: int| None::<ChainView>),
            r@.manifests == Seq::new(
                count_snapshots(r@.collections.backup_chains) as nat,
                |i: int| None::<ManifestView>,
            ),
            backup_wf(r@),
    {
        let mut signatures: Vec<Option<Chain>> = Vec::new();
        let n = collections.num_signature_chains();
        let mut i: usize = 0;
        while i < n
            invariant
                i <= n,
                signatures@.len() == i,
                forall|k: int| 0 <= k < i ==> (#[trigger] signatures@[k]) is None,
            decreases n - i,
        {
            signatures.push(None);
            i = i + 1;
        }
        let m = collections.num_snapshots();
        let mut manifests: Vec<Option<Manifest>> = Vec::new();
        let mut j: usize = 0;
        while j < m
            invariant
                j <= m,
                manifests@.len() == j,
                forall|k: int| 0 <= k < j ==> (#[trigger] manifests@[k]) is None,
            decreases m - j,
        {
            manifests.push(None);
            j = j + 1;
        }
        let r = Backup { backend, collections, signatures, manifests };
        assert(r@.signatures =~= Seq::new(r@.collections.sig_chains.len(), |i: int| None::<ChainView>));
        assert(r@.manifests =~= Seq::new(
            count_snapshots(r@.collections.backup_chains) as nat,
            |i: int| None::<ManifestView>,
        ));
        r
    }

    /// The snapshots of the backup.
    pub fn snapshots(&self) -> (r: Snapshots<'_, B>)
        requires
            backup_wf(self@),
        ensures
            r.backup_view() == self@,
    {
        Snapshots { backup: self }
    }

    /// The backend of the backup.
    pub closed spec fn backend_value(&self) -> B {
        self.backend
    }

    /// Unwraps the backup and gives back its backend.
    pub fn into_inner(self) -> (r: B)
        ensures
            r == self.backend_value(),
    {
        self.backend
    }

    /// The backend of the backup, through which its files are read.
    pub fn backend(&self) -> (r: &B)
        ensures
            *r == self.backend_value(),
    {
        &self.backend
    }

    /// The collections of the backup.
    pub fn collections(&self) -> (r: &Collections)
        ensures
            r@ == self@.collections,
    {
        &self.collections
    }

    /// The signature chain `chain_id`, if it has been read.
    pub fn signature_chain(&self, chain_id: usize) -> (r: Option<&Chain>)
        ensures
            chain_id < self@.signatures.len() ==> match r {
                Some(c) => self@.signatures[chain_id as int] == Some(c@),
                None => self@.signatures[chain_id as int] is None,
            },
            chain_id >= self@.signatures.len() ==> r is None,
    {
        if chain_id >= self.signatures.len() {
            return None;
        }
        match &self.signatures[chain_id] {
            Some(c) => Some(c),
            None => None,
        }
    }

    /// Keeps the signature chain `chain_id`, read from its files.
    pub fn set_signature_chain(&mut self, chain_id: usize, chain: Chain)
        requires
            backup_wf(old(self)@),
            chain_id < old(self)@.signatures.len(),
        ensures
            final(self)@ == (BackupView {
                signatures: old(self)@.signatures.update(chain_id as int, Some(chain@)),
                ..old(self)@
            }),
            final(self).backend_value() == old(self).backend_value(),
            backup_wf(final(self)@),
    {
        let ghost before = self@;
        self.signatures.set(chain_id, Some(chain));
        assert(self@.signatures =~= before.signatures.update(chain_id as int, Some(chain@)));
    }

    /// The manifest of snapshot `id`, if it has been read.
    pub fn manifest(&self, id: usize) -> (r: Option<&Manifest>)
        ensures
            id < self@.manifests.len() ==> match r {
                Some(m) => self@.manifests[id as int] == Some(m@),
                None => self@.manifests[id as int] is None,
            },
            id >= self@.manifests.len() ==> r is None,
    {
        if id >= self.manifests.len() {
            return None;
        }
        match &self.manifests[id] {
            Some(m) => Some(m),
            None => None,
        }
    }

    /// Keeps the manifest of snapshot `id`, read from its file.
    pub fn set_manifest(&mut self, id: usize, manifest: Manifest)
        requires
            backup_wf(old(self)@),
            id < old(self)@.manifests.len(),
        ensures
            final(self)@ == (BackupView {
                manifests: old(self)@.manifests.update(id as int, Some(manifest@)),
                ..old(self)@
            }),
            final(self).backend_value() == old(self).backend_value(),
            backup_wf(final(self)@),
    {
        let ghost before = self@;
        self.manifests.set(id, Some(manifest));
        assert(self@.manifests =~= before.manifests.update(id as int, Some(manifest@)));
    }
}

/// The snapshots of a backup.
pub struct Snapshots<'a, B> {
    backup: &'a Backup<B>,
}

impl<'a, B> Snapshots<'a, B> {
    /// The backup is well formed.
    #[verifier::type_invariant]
    spec fn inv(self) -> bool {
        backup_wf(self.backup@)
    }

    /// The backup.
    pub closed spec fn backup_view(&self) -> BackupView {
        self.backup@
    }

    /// The collections that describe the snapshots.
    pub fn as_collections(&self) -> (r: &'a Collections)
        ensures
            r@ == self.backup_view().collections,
    {
        let b: &'a Backup<B> = self.backup;
        &b.collections
    }

    /// An iterator over the snapshots, from the first.
    pub fn into_iter(self) -> (r: SnapshotsIter<'a, B>)
        ensures
            r.backup_view() == self.backup_view(),
            r.chain_id() == 0,
            r.inc_pos() == 0,
    {
        proof {
            use_type_invariant(&self);
        }
        SnapshotsIter { backup: self.backup, chain_id: 0, inc_pos: 0, man_id: 0 }
    }
}

/// An iterator over the snapshots of a backup: for each backup chain, its
/// full set and then its incremental sets.
pub struct SnapshotsIter<'a, B> {
    backup: &'a Backup<B>,
    /// The number of chains begun.
    chain_id: usize,
    /// The incremental sets of the current chain given so far.
    inc_pos: usize,
    /// The number of snapshots given so far.
    man_id: usize,
}

/// A snapshot of a backup.
pub struct Snapshot<'a, B> {
    set: &'a BackupSet,
    chain_id: usize,
    sig_id: usize,
    man_id: usize,
    backup: &'a Backup<B>,
}

impl<'a, B> SnapshotsIter<'a, B> {
    /// The iterator is in a state it can be in for its backup.
    #[verifier::type_invariant]
    spec fn inv(self) -> bool {
        &&& backup_wf(self.backup@)
        &&& iter_state_valid(self.backup@.collections.backup_chains, self.chain_id as nat, self.inc_pos as nat)
    }

    /// The backup.
    pub closed spec fn backup_view(&self) -> BackupView {
        self.backup@
    }

    /// The number of chains begun.
    pub closed spec fn chain_id(&self) -> nat {
        self.chain_id as nat
    }

    /// The incremental sets of the current chain given so far.
    pub closed spec fn inc_pos(&self) -> nat {
        self.inc_pos as nat
    }

    /// The next snapshot: the next incremental set of the current chain,
    /// or else the full set of the next chain.
    pub fn next(&mut self) -> (r: Option<Snapshot<'a, B>>)
        ensures
            final(self).backup_view() == old(self).backup_view(),
            ({
                let chains = old(self).backup_view().collections.backup_chains;
                let c = old(self).chain_id();
                let k = old(self).inc_pos();
                if c > 0 && k < chains[c - 1].incsets.len() {
                    &&& r matches Some(s)
                    &&& s.chain_id() == c - 1
                    &&& s.sig_id() == k + 1
                    &&& s.man_id() == count_snapshots(chains.take(c - 1)) + 1 + k
                    &&& s.set_view() == chains[c - 1].incsets[k as int]
                    &&& s.backup_view() == old(self).backup_view()
                    &&& final(self).chain_id() == c
                    &&& final(self).inc_pos() == k + 1
                } else if c < chains.len() {
                    &&& r matches Some(s)
                    &&& s.chain_id() == c
                    &&& s.sig_id() == 0
                    &&& s.man_id() == count_snapshots(chains.take(c as int))
                    &&& s.set_view() == chains[c as int].fullset
                    &&& s.backup_view() == old(self).backup_view()
                    &&& final(self).chain_id() == c + 1
                    &&& final(self).inc_pos() == 0
                } else {
                    r is None && final(self).chain_id() == c && final(self).inc_pos() == k
                }
            }),
            match snapshots_step(old(self).backup_view().collections.backup_chains, old(self).chain_id(), old(self).inc_pos()) {
                Some((set, c2, k2)) => r matches Some(s) && s.set_view() == set && final(self).chain_id() == c2
                    && final(self).inc_pos() == k2,
                None => r is None,
            },
            final(self).chain_id() <= final(self).backup_view().collections.backup_chains.len(),
            final(self).chain_id() > 0 ==> final(self).inc_pos() <= final(self).backup_view().collections.backup_chains[final(self).chain_id() - 1].incsets.len(),
    {
        proof {
            use_type_invariant(&*self);
        }
        let backup: &'a Backup<B> = self.backup;
        let ghost chains = backup@.collections.backup_chains;
        let ghost c = self.chain_id as int;
        let man = Self::count_before(backup, self.chain_id, self.inc_pos);
        if self.chain_id > 0 {
            let chain = backup.collections.backup_chain(self.chain_id - 1);
            if self.inc_pos < chain.num_inc_sets() {
                let set = chain.inc_set(self.inc_pos);
                let k = self.inc_pos;
                let id = self.chain_id;
                *self = SnapshotsIter { backup, chain_id: id, inc_pos: k + 1, man_id: man };
                return Some(Snapshot { set, chain_id: id - 1, sig_id: k + 1, man_id: man, backup });
            }
        }
        if self.chain_id < backup.collections.num_backup_chains() {
            let chain = backup.collections.backup_chain(self.chain_id);
            let id = self.chain_id;
            *self = SnapshotsIter { backup, chain_id: id + 1, inc_pos: 0, man_id: man };
            Some(Snapshot { set: chain.full_set(), chain_id: id, sig_id: 0, man_id: man, backup })
        } else {
            None
        }
    }

    /// The number of snapshots before the next one.
    fn count_before(backup: &Backup<B>, chain_id: usize, inc_pos: usize) -> (r: usize)
        requires
            backup_wf(backup@),
            chain_id <= backup@.collections.backup_chains.len(),
            chain_id > 0 ==> inc_pos <= backup@.collections.backup_chains[chain_id - 1].incsets.len(),
        ensures
            ({
                let chains = backup@.collections.backup_chains;
                &&& chain_id > 0 && inc_pos < chains[chain_id - 1].incsets.len() ==> r == count_snapshots(
                    chains.take(chain_id - 1),
                ) + 1 + inc_pos
                &&& !(chain_id > 0 && inc_pos < chains[chain_id - 1].incsets.len()) ==> r == count_snapshots(
                    chains.take(chain_id as int),
                )
            }),
    {
        let ghost chains = backup@.collections.backup_chains;
        let mut total: usize = 0;
        let mut i: usize = 0;
        proof {
            lemma_count_snapshots_prefix(chains, chain_id as int);
            assert(chains.take(0) =~= Seq::<BackupChainView>::empty());
        }
        while i < chain_id
            invariant
                i <= chain_id,
                chain_id <= chains.len(),
                chains == backup@.collections.backup_chains,
                count_snapshots(chains.take(chain_id as int)) <= usize::MAX,
                total == count_snapshots(chains.take(i as int)),
            decreases chain_id - i,
        {
            assert(chains.take(i + 1).drop_last() =~= chains.take(i as int));
            proof {
                lemma_count_snapshots_prefix(chains.take(chain_id as int), i + 1);
                assert(chains.take(chain_id as int).take(i + 1) =~= chains.take(i + 1));
            }
            total = total + 1 + backup.collections.backup_chain(i).num_inc_sets();
            i = i + 1;
        }
        if chain_id > 0 && inc_pos < backup.collections.backup_chain(chain_id - 1).num_inc_sets() {
            let incs = backup.collections.backup_chain(chain_id - 1).num_inc_sets();
            proof {
                assert(chains.take(chain_id as int).drop_last() =~= chains.take(chain_id - 1));
                assert(chains.take(chain_id as int).last() == chains[chain_id - 1]);
                assert(total == count_snapshots(chains.take(chain_id - 1)) + 1 + incs);
                lemma_count_snapshots_prefix(chains, chain_id - 1);
            }
            total - (incs - inc_pos)
        } else {
            total
        }
    }
}

impl<'a, B> Snapshot<'a, B> {
    /// The backup set of the snapshot.
    pub closed spec fn set_view(&self) -> crate::collections::BackupSetView {
        self.set@
    }

    /// The backup.
    pub closed spec fn backup_view(&self) -> BackupView {
        self.backup@
    }

    /// The position of the snapshot's chain.
    pub closed spec fn chain_id(&self) -> nat {
        self.chain_id as nat
    }

    /// The position of the snapshot in its chain.
    pub closed spec fn sig_id(&self) -> nat {
        self.sig_id as nat
    }

    /// The position of the snapshot in the backup.
    pub closed spec fn man_id(&self) -> nat {
        self.man_id as nat
    }

    /// The time at which the snapshot was taken.
    pub fn time(&self) -> (r: Timespec)
        ensures
            r == self.set_view().tp.spec_end_time(),
    {
        self.set.end_time()
    }

    /// Whether the snapshot is a full backup, which depends on no earlier
    /// snapshot.
    pub fn is_full(&self) -> (r: bool)
        ensures
            r == self.set_view().tp is Full,
    {
        self.set.is_full()
    }

    /// Whether the snapshot is an incremental backup, which depends on the
    /// earlier snapshots of its chain.
    pub fn is_incremental(&self) -> (r: bool)
        ensures
            r == self.set_view().tp is Inc,
    {
        self.set.is_incremental()
    }

    /// The number of volumes of the snapshot.
    pub fn num_volumes(&self) -> (r: usize)
        ensures
            r == self.set_view().volumes.len(),
    {
        self.set.num_volumes()
    }

    /// The backup set of the snapshot.
    pub fn as_backup_set(&self) -> (r: &'a BackupSet)
        ensures
            r@ == self.set_view(),
    {
        self.set
    }

    /// The position of the snapshot's chain among the backup chains.
    pub fn chain_index(&self) -> (r: usize)
        ensures
            r == self.chain_id(),
    {
        self.chain_id
    }

    /// The position of the snapshot in the backup, which is that of its
    /// manifest.
    pub fn index(&self) -> (r: usize)
        ensures
            r == self.man_id(),
    {
        self.man_id
    }
}

impl<'a, B> Snapshot<'a, B> {
    /// The files and directories of the snapshot, from the signature chain
    /// of its backup chain, which must have been read.
    pub fn entries(&self) -> (r: Result<SnapshotEntries<'a>, SnapshotError>)
        ensures
            ({
                let sigs = self.backup_view().signatures;
                let c = self.chain_id();
                if c >= sigs.len() {
                    r == Err::<SnapshotEntries<'a>, SnapshotError>(SnapshotError::NoSignatureChain(c as usize))
                } else {
                    match sigs[c as int] {
                        None => r == Err::<SnapshotEntries<'a>, SnapshotError>(
                            SnapshotError::SignatureChainNotRead(c as usize),
                        ),
                        Some(chain) => if self.sig_id() < chain.num_snapshots {
                            r matches Ok(e) && e.chain_view() == chain && e.sig_id() == self.sig_id()
                        } else {
                            r == Err::<SnapshotEntries<'a>, SnapshotError>(
                                SnapshotError::IncompleteSignatureChain,
                            )
                        },
                    }
                }
            }),
    {
        let backup: &'a Backup<B> = self.backup;
        if self.chain_id >= backup.signatures.len() {
            return Err(SnapshotError::NoSignatureChain(self.chain_id));
        }
        match &backup.signatures[self.chain_id] {
            None => Err(SnapshotError::SignatureChainNotRead(self.chain_id)),
            Some(chain) => {
                if self.sig_id < chain.num_snapshots() as usize {
                    Ok(SnapshotEntries { chain, sig_id: self.sig_id })
                } else {
                    Err(SnapshotError::IncompleteSignatureChain)
                }
            },
        }
    }

    /// The manifest of the snapshot, which must have been read.
    pub fn manifest(&self) -> (r: Result<ManifestRef<'a>, SnapshotError>)
        ensures
            ({
                let ms = self.backup_view().manifests;
                let m = self.man_id();
                if m < ms.len() && ms[m as int] is Some {
                    r matches Ok(mr) && mr@ == ms[m as int]->0
                } else {
                    r == Err::<ManifestRef<'a>, SnapshotError>(SnapshotError::ManifestNotRead(m as usize))
                }
            }),
    {
        let backup: &'a Backup<B> = self.backup;
        if self.man_id >= backup.manifests.len() {
            return Err(SnapshotError::ManifestNotRead(self.man_id));
        }
        match &backup.manifests[self.man_id] {
            Some(m) => Ok(ManifestRef(m)),
            None => Err(SnapshotError::ManifestNotRead(self.man_id)),
        }
    }
}

/// The files and directories of a snapshot of a backup.
pub struct SnapshotEntries<'a> {
    chain: &'a Chain,
    sig_id: usize,
}

impl<'a> SnapshotEntries<'a> {
    #[verifier::type_invariant]
    spec fn inv(self) -> bool {
        self.sig_id < self.chain@.num_snapshots
    }

    /// The signature chain of the snapshot.
    pub closed spec fn chain_view(&self) -> ChainView {
        self.chain@
    }

    /// The position of the snapshot in its signature chain.
    pub closed spec fn sig_id(&self) -> nat {
        self.sig_id as nat
    }

    /// The entries of the snapshot, as the signature chain gives them.
    pub fn as_signature(&self) -> (r: crate::signatures::SnapshotEntries<'a>)
        ensures
            r.chain_view() == self.chain_view(),
            r.index() == self.sig_id(),
            r.position() == 0,
    {
        proof {
            use_type_invariant(self);
        }
        let chain: &'a Chain = self.chain;
        let mut snaps = chain.snapshots();
        let snapshot = snaps.nth(self.sig_id);
        assert(snapshot is Some);
        snapshot.unwrap().files()
    }
}

impl<'a> SnapshotEntries<'a> {
    /// The text that shows the entries, one line each (see
    /// `signatures::SnapshotEntriesDisplay`).
    pub fn to_display_string(&self) -> (r: Option<String>)
        requires
            entries_displayable(remaining_entries(self.chain_view().files, self.sig_id() as u8, 0)),
        ensures
            exists|lines: Seq<Seq<char>>|
                {
                    &&& lines_show(
                        lines,
                        remaining_entries(self.chain_view().files, self.sig_id() as u8, 0),
                        self.chain_view().ug,
                    )
                    &&& match r {
                        Some(t) => spec_tab_align(joined_lines(lines)) == Some(t@),
                        None => spec_tab_align(joined_lines(lines)) is None,
                    }
                },
    {
        proof {
            use_type_invariant(self);
        }
        self.as_signature().into_display().to_display_string()
    }
}

/// A manifest of a backup.
#[derive(Debug)]
pub struct ManifestRef<'a>(&'a Manifest);

impl<'a> View for ManifestRef<'a> {
    type V = ManifestView;

    closed spec fn view(&self) -> ManifestView {
        self.0@
    }
}

impl<'a> ManifestRef<'a> {
    /// The manifest.
    pub fn as_manifest(&self) -> (r: &'a Manifest)
        ensures
            r@ == self@,
    {
        self.0
    }
}

/// The backup sets of chains in the order of the snapshots: chain after
/// chain, the full set and then the incremental sets.
pub open spec fn snapshot_sets(chains: Seq<BackupChainView>) -> Seq<crate::collections::BackupSetView>
    decreases chains.len(),
{
    if chains.len() == 0 {
        Seq::empty()
    } else {
        snapshot_sets(chains.drop_last()) + seq![chains.last().fullset] + chains.last().incsets
    }
}

proof fn lemma_snapshot_sets_len(chains: Seq<BackupChainView>)
    ensures
        snapshot_sets(chains).len() == count_snapshots(chains),
    decreases chains.len(),
{
    if chains.len() > 0 {
        lemma_snapshot_sets_len(chains.drop_last());
    }
}

/// The snapshot that the iterator gives for set `k` of chain `c` (the full
/// set being set zero) has position `count_snapshots` of the chains before
/// plus `k`: that position is below the number of snapshots, and the set
/// found there among all the sets, chain after chain, is that set. So the
/// positions of the snapshots, which index their manifests, number the
/// sets of the backup in order.
pub proof fn law_snapshot_position(chains: Seq<BackupChainView>, c: int, k: int)
    requires
        0 <= c < chains.len(),
        0 <= k <= chains[c].incsets.len(),
    ensures
        snapshot_sets(chains).len() == count_snapshots(chains),
        count_snapshots(chains.take(c)) + k < count_snapshots(chains),
        snapshot_sets(chains)[count_snapshots(chains.take(c)) + k] == if k == 0 {
            chains[c].fullset
        } else {
            chains[c].incsets[k - 1]
        },
    decreases chains.len(),
{
    lemma_snapshot_sets_len(chains);
    let d = chains.drop_last();
    lemma_snapshot_sets_len(d);
    let tail = seq![chains.last().fullset] + chains.last().incsets;
    assert(snapshot_sets(chains) =~= snapshot_sets(d) + tail);
    let i = count_snapshots(chains.take(c)) + k;
    lemma_count_snapshots_prefix(chains, c);
    if c == chains.len() - 1 {
        assert(chains.take(c) =~= d);
        assert(i - snapshot_sets(d).len() == k);
        assert(snapshot_sets(chains)[i] == tail[k]);
    } else {
        assert(chains.take(c) =~= d.take(c));
        law_snapshot_position(d, c, k);
        assert(d[c] == chains[c]);
        assert(i < snapshot_sets(d).len());
        assert(snapshot_sets(chains)[i] == snapshot_sets(d)[i]);
    }
}

/// One step of the snapshot iterator, from `c` chains begun and `k`
/// incremental sets of the current chain given: the set it gives and the
/// state after it, or nothing at the end.
pub open spec fn snapshots_step(chains: Seq<BackupChainView>, c: nat, k: nat) -> Option<
    (crate::collections::BackupSetView, nat, nat),
> {
    if c > 0 && c <= chains.len() && k < chains[c - 1].incsets.len() {
        Some((chains[c - 1].incsets[k as int], c, k + 1))
    } else if c < chains.len() {
        Some((chains[c as int].fullset, c + 1, 0))
    } else {
        None
    }
}

/// How many snapshots the iterator has given in a state.
pub open spec fn iter_pos(chains: Seq<BackupChainView>, c: nat, k: nat) -> int {
    if c == 0 {
        0
    } else {
        count_snapshots(chains.take(c - 1)) + 1 + k
    }
}

/// A state that the iterator can be in.
pub open spec fn iter_state_valid(chains: Seq<BackupChainView>, c: nat, k: nat) -> bool {
    &&& c <= chains.len()
    &&& c > 0 ==> k <= chains[c - 1].incsets.len()
    &&& c == 0 ==> k == 0
}

/// The snapshot iterator walks the backup sets of the chains, chain after
/// chain, the full set first: from the start it has given none; in any
/// state, the next step gives the set at the position of the snapshots
/// given so far and moves one position on, and it gives nothing exactly
/// when all the snapshots have been given.
pub proof fn law_snapshots_walk_sets(chains: Seq<BackupChainView>, c: nat, k: nat)
    requires
        iter_state_valid(chains, c, k),
    ensures
        iter_pos(chains, 0, 0) == 0,
        0 <= iter_pos(chains, c, k) <= count_snapshots(chains),
        match snapshots_step(chains, c, k) {
            Some((set, c2, k2)) => {
                &&& iter_pos(chains, c, k) < count_snapshots(chains)
                &&& set == snapshot_sets(chains)[iter_pos(chains, c, k)]
                &&& iter_state_valid(chains, c2, k2)
                &&& iter_pos(chains, c2, k2) == iter_pos(chains, c, k) + 1
            },
            None => iter_pos(chains, c, k) == count_snapshots(chains),
        },
{
    lemma_snapshot_sets_len(chains);
    if c > 0 {
        let c1 = (c - 1) as int;
        assert(chains.take(c as int).drop_last() =~= chains.take(c1));
        assert(chains.take(c as int).last() == chains[c1]);
        assert(count_snapshots(chains.take(c as int)) == count_snapshots(chains.take(c1)) + 1
            + chains[c1].incsets.len());
        lemma_count_snapshots_prefix(chains, c as int);
        lemma_count_snapshots_prefix(chains, c1);
    }
    match snapshots_step(chains, c, k) {
        Some((set, c2, k2)) => {
            if c > 0 && k < chains[c - 1].incsets.len() {
                law_snapshot_position(chains, c - 1, (k + 1) as int);
            } else {
                assert(chains.take(0) =~= Seq::<BackupChainView>::empty());
                law_snapshot_position(chains, c as int, 0);
                assert(iter_pos(chains, c, k) == count_snapshots(chains.take(c as int)));
                assert(chains.take((c + 1) as int).drop_last() =~= chains.take(c as int));
            }
        },
        None => {
            assert(chains.take(chains.len() as int) =~= chains);
            if c == 0 {
                assert(chains.len() == 0);
            }
        },
    }
}

/// The states and the sets that a sequence of calls of
/// `SnapshotsIter::next` goes through, from `Snapshots::into_iter` (as
/// their contracts say, `snapshots_step` being the step of `next`).
pub open spec fn snapshots_calls(
    chains: Seq<BackupChainView>,
    states: Seq<(nat, nat)>,
    gave: Seq<Option<crate::collections::BackupSetView>>,
) -> bool {
    &&& states.len() == gave.len() + 1
    &&& states[0] == (0nat, 0nat)
    &&& forall|i: int|
        0 <= i < gave.len() ==> match snapshots_step(chains, (#[trigger] states[i]).0, states[i].1) {
            Some((set, c2, k2)) => gave[i] == Some(set) && states[i + 1] == (c2, k2),
            None => gave[i] is None && states[i + 1] == states[i],
        }
}

/// Iterating over the snapshots of a backup gives, call after call, the
/// backup sets of its chains in order, chain after chain and the full set
/// of each first (`snapshot_sets`), and then nothing.
pub proof fn law_snapshots_calls(
    chains: Seq<BackupChainView>,
    states: Seq<(nat, nat)>,
    gave: Seq<Option<crate::collections::BackupSetView>>,
)
    requires
        snapshots_calls(chains, states, gave),
    ensures
        forall|i: int|
            0 <= i < gave.len() ==> #[trigger] gave[i] == if i < count_snapshots(chains) {
                Some(snapshot_sets(chains)[i])
            } else {
                None
            },
{
    assert forall|i: int| 0 <= i < gave.len() implies #[trigger] gave[i] == if i < count_snapshots(chains) {
        Some(snapshot_sets(chains)[i])
    } else {
        None
    } by {
        lemma_snapshots_calls_at(chains, states, gave, i);
        law_snapshots_walk_sets(chains, states[i].0, states[i].1);
    }
}

/// After `i` calls the iterator is in a state it can be in, at the
/// position of the `i` snapshots given, or at the end.
proof fn lemma_snapshots_calls_at(
    chains: Seq<BackupChainView>,
    states: Seq<(nat, nat)>,
    gave: Seq<Option<crate::collections::BackupSetView>>,
    i: int,
)
    requires
        snapshots_calls(chains, states, gave),
        0 <= i < states.len(),
    ensures
        iter_state_valid(chains, states[i].0, states[i].1),
        iter_pos(chains, states[i].0, states[i].1) == if i < count_snapshots(chains) {
            i
        } else {
            count_snapshots(chains)
        },
    decreases i,
{
    if i == 0 {
        law_snapshots_walk_sets(chains, 0, 0);
    } else {
        lemma_snapshots_calls_at(chains, states, gave, i - 1);
        law_snapshots_walk_sets(chains, states[i - 1].0, states[i - 1].1);
        assert(match snapshots_step(chains, states[i - 1].0, states[i - 1].1) {
            Some((set, c2, k2)) => gave[i - 1] == Some(set) && states[(i - 1) + 1] == (c2, k2),
            None => gave[i - 1] is None && states[(i - 1) + 1] == states[i - 1],
        });
    }
}

/// In well formed chains, the snapshot of set `k` of chain `c` (the full
/// set being set zero) is full exactly when it is the first of its chain,
/// and an incremental one starts when the snapshot before it ends.
pub proof fn law_snapshot_sets_follow(chains: Seq<BackupChainView>, c: int, k: int)
    requires
        forall|j: int| 0 <= j < chains.len() ==> chain_wf(#[trigger] chains[j]),
        0 <= c < chains.len(),
        0 <= k <= chains[c].incsets.len(),
    ensures
        (snapshot_sets(chains)[count_snapshots(chains.take(c)) + k].tp is Full) == (k == 0),
        k > 0 ==> snapshot_sets(chains)[count_snapshots(chains.take(c)) + k].tp.spec_start_time()
            == snapshot_sets(chains)[count_snapshots(chains.take(c)) + k - 1].tp.spec_end_time(),
{
    let ch = chains[c];
    assert(chain_wf(ch));
    law_snapshot_position(chains, c, k);
    if k > 0 {
        law_snapshot_position(chains, c, k - 1);
        assert(ch.incsets[k - 1].tp is Inc);
    }
}

/// A manifest kept with `Backup::set_manifest` is what
/// `Snapshot::manifest` then gives for the snapshot at that position (the
/// contract of `manifest` reads the slot), and the manifests of the other
/// snapshots stay as they were; the backup stays well formed.
pub proof fn law_manifest_read_after_set(before: BackupView, id: int, m: ManifestView, j: int)
    requires
        0 <= id < before.manifests.len(),
        0 <= j < before.manifests.len(),
    ensures
        ({
            let after = BackupView { manifests: before.manifests.update(id, Some(m)), ..before };
            &&& j == id ==> after.manifests[j] == Some(m)
            &&& j != id ==> after.manifests[j] == before.manifests[j]
            &&& backup_wf(before) ==> backup_wf(after)
        }),
{
}

} // verus!
