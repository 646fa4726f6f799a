//! Operations on backup files.
//!
//! Information about a backup is gathered from the names of the files in a
//! backup directory alone: no archive is opened, so nothing is validated.
//! Files are grouped into backup sets (one snapshot each), sets into backup
//! chains (a full set and the incremental sets that follow it), and
//! signature files into signature chains.

pub mod display;
pub mod file_naming;

use vstd::prelude::*;
use crate::sort::{TimeKeyed, sort_by_key, stable_sort_by_time, views, key_fn};
use crate::timefmt::{Timespec, ts_le, ts_lt, timespec_lt, timespec_eq};
use self::file_naming as fnm;
use self::file_naming::{FileNameInfo, FileNameParser, Info, spec_parse_name};

verus! {

broadcast use vstd::std_specs::hash::group_hash_axioms;

/// Iterator over some kind of chain.
pub type ChainIter<'a, T> = std::slice::Iter<'a, T>;

/// Iterator over `BackupSet`s.
pub type BackupSetIter<'a> = std::slice::Iter<'a, BackupSet>;




/// The kind and times of a backup set.
#[derive(Clone, Copy, PartialEq, Eq, Structural, Debug)]
pub enum Type {
    Full { time: Timespec },
    Inc { start_time: Timespec, end_time: Timespec },
}

impl Type {
    pub open spec fn spec_start_time(self) -> Timespec {
        match self {
            Type::Full { time } => time,
            Type::Inc { start_time, .. } => start_time,
        }
    }

    pub open spec fn spec_end_time(self) -> Timespec {
        match self {
            Type::Full { time } => time,
            Type::Inc { end_time, .. } => end_time,
        }
    }

    /// The time the set starts from.
    pub fn start_time(&self) -> (r: Timespec)
        ensures
            r == self.spec_start_time(),
    {
        match *self {
            Type::Full { time } => time,
            Type::Inc { start_time, .. } => start_time,
        }
    }

    /// The time the set was taken.
    pub fn end_time(&self) -> (r: Timespec)
        ensures
            r == self.spec_end_time(),
    {
        match *self {
            Type::Full { time } => time,
            Type::Inc { end_time, .. } => end_time,
        }
    }
}

/// Information about a backup snapshot.
#[derive(Debug)]
pub struct BackupSet {
    tp: Type,
    compressed: bool,
    encrypted: bool,
    partial: bool,
    manifest_path: String,
    volumes_paths: std::collections::HashMap<i32, String>,
}

/// What a backup set holds.
pub struct BackupSetView {
    pub tp: Type,
    pub compressed: bool,
    pub encrypted: bool,
    pub partial: bool,
    pub manifest_path: Seq<char>,
    pub volumes: Map<i32, Seq<char>>,
}

impl View for BackupSet {
    type V = BackupSetView;

    closed spec fn view(&self) -> BackupSetView {
        BackupSetView {
            tp: self.tp,
            compressed: self.compressed,
            encrypted: self.encrypted,
            partial: self.partial,
            manifest_path: self.manifest_path@,
            volumes: self.volumes_paths@.map_values(|p: String| p@),
        }
    }
}

/// The kind and times of the set a file belongs to.
pub open spec fn set_type_of(t: fnm::Type) -> Type {
    match t {
        fnm::Type::Full { time, .. } | fnm::Type::FullManifest { time, .. } | fnm::Type::FullSig {
            time,
            ..
        } => Type::Full { time },
        fnm::Type::Inc { start_time, end_time, .. }
        | fnm::Type::IncManifest { start_time, end_time, .. }
        | fnm::Type::NewSig { start_time, end_time, .. } => Type::Inc { start_time, end_time },
    }
}

/// Whether a file is marked partial: only manifests and signatures can be.
pub open spec fn partial_of(t: fnm::Type) -> bool {
    match t {
        fnm::Type::FullManifest { partial, .. } | fnm::Type::IncManifest { partial, .. }
        | fnm::Type::FullSig { partial, .. } | fnm::Type::NewSig { partial, .. } => partial,
        _ => false,
    }
}

/// A file belongs to a set of the given kind: a full set takes full files
/// of the same time, an incremental set incremental files of the same start
/// and end times.
pub open spec fn same_set(tp: Type, t: fnm::Type) -> bool {
    match tp {
        Type::Full { time: my_time } => match t {
            fnm::Type::Full { time, .. } | fnm::Type::FullManifest { time, .. }
            | fnm::Type::FullSig { time, .. } => my_time == time,
            _ => false,
        },
        Type::Inc { start_time: my_start, end_time: my_end } => match t {
            fnm::Type::Inc { start_time, end_time, .. }
            | fnm::Type::IncManifest { start_time, end_time, .. }
            | fnm::Type::NewSig { start_time, end_time, .. } => my_start == start_time && my_end
                == end_time,
            _ => false,
        },
    }
}

/// A set after a file of it has been added: a volume is recorded under its
/// number, a manifest as the manifest path, and an encrypted file makes a
/// partial set encrypted.
pub open spec fn add_file(v: BackupSetView, name: Seq<char>, info: Info) -> BackupSetView {
    BackupSetView {
        volumes: match info.tp {
            fnm::Type::Full { volume_number, .. } | fnm::Type::Inc { volume_number, .. } => v.volumes.insert(
                volume_number,
                name,
            ),
            _ => v.volumes,
        },
        manifest_path: match info.tp {
            fnm::Type::FullManifest { .. } | fnm::Type::IncManifest { .. } => name,
            _ => v.manifest_path,
        },
        encrypted: v.encrypted || (v.partial && info.encrypted),
        ..v
    }
}

/// The set that a file starts.
pub open spec fn new_set(name: Seq<char>, info: Info) -> BackupSetView {
    add_file(
        BackupSetView {
            tp: set_type_of(info.tp),
            compressed: info.compressed,
            encrypted: info.encrypted,
            partial: partial_of(info.tp),
            manifest_path: Seq::empty(),
            volumes: Map::empty(),
        },
        name,
        info,
    )
}

impl BackupSet {
    /// Creates a new `BackupSet`, starting from file name information.
    pub fn new(fname: &FileNameInfo) -> (r: Self)
        ensures
            r@ == new_set(fname.file_name@, fname.info),
    {
        let tp = match fname.info.tp {
            fnm::Type::Full { time, .. } | fnm::Type::FullManifest { time, .. }
            | fnm::Type::FullSig { time, .. } => Type::Full { time },
            fnm::Type::Inc { start_time, end_time, .. }
            | fnm::Type::IncManifest { start_time, end_time, .. }
            | fnm::Type::NewSig { start_time, end_time, .. } => Type::Inc { start_time, end_time },
        };
        let partial = match fname.info.tp {
            fnm::Type::FullManifest { partial, .. } | fnm::Type::IncManifest { partial, .. }
            | fnm::Type::FullSig { partial, .. } | fnm::Type::NewSig { partial, .. } => partial,
            _ => false,
        };
        let mut result = BackupSet {
            tp,
            partial,
            compressed: fname.info.compressed,
            encrypted: fname.info.encrypted,
            manifest_path: String::new(),
            volumes_paths: std::collections::HashMap::new(),
        };
        assert(result@.volumes =~= Map::empty());
        let added = result.add_filename(fname);
        result
    }

    /// Adds a file to this set, and returns true, when the file belongs to
    /// it (see `is_same_set`); otherwise leaves the set unchanged and
    /// returns false.
    pub fn add_filename(&mut self, file_info: &FileNameInfo) -> (r: bool)
        ensures
            r == same_set(old(self)@.tp, file_info.info.tp),
            r ==> final(self)@ == add_file(old(self)@, file_info.file_name@, file_info.info),
            !r ==> final(self)@ == old(self)@,
    {
        let pr = &file_info.info;
        let fname = file_info.file_name;
        if !self.is_same_set(pr) {
            false
        } else {
            let ghost before = self@;
            match pr.tp {
                fnm::Type::Full { volume_number, .. } | fnm::Type::Inc { volume_number, .. } => {
                    self.volumes_paths.insert(volume_number, fname.to_owned());
                    assert(self@.volumes =~= before.volumes.insert(volume_number, fname@));
                },
                fnm::Type::FullManifest { .. } | fnm::Type::IncManifest { .. } => {
                    self.manifest_path = fname.to_owned();
                },
                _ => {},
            }
            self.fix_encrypted(pr.encrypted);
            true
        }
    }

    /// A set is complete when its manifest has been seen.
    pub fn is_complete(&self) -> (r: bool)
        ensures
            r == (self@.manifest_path.len() > 0),
    {
        !self.manifest_path.as_str().is_empty()
    }

    pub fn start_time(&self) -> (r: Timespec)
        ensures
            r == self@.tp.spec_start_time(),
    {
        self.tp.start_time()
    }

    pub fn end_time(&self) -> (r: Timespec)
        ensures
            r == self@.tp.spec_end_time(),
    {
        self.tp.end_time()
    }

    pub fn is_compressed(&self) -> (r: bool)
        ensures
            r == self@.compressed,
    {
        self.compressed
    }

    pub fn is_encrypted(&self) -> (r: bool)
        ensures
            r == self@.encrypted,
    {
        self.encrypted
    }

    pub fn is_partial(&self) -> (r: bool)
        ensures
            r == self@.partial,
    {
        self.partial
    }

    /// The name of the manifest file; empty when none has been seen.
    pub fn manifest_path(&self) -> (r: &str)
        ensures
            r@ == self@.manifest_path,
    {
        self.manifest_path.as_str()
    }

    /// The name of the file of the given volume, if present.
    pub fn volume_path(&self, volume_num: i32) -> (r: Option<&str>)
        ensures
            match r {
                Some(p) => self@.volumes.contains_key(volume_num) && p@ == self@.volumes[volume_num],
                None => !self@.volumes.contains_key(volume_num),
            },
    {
        match self.volumes_paths.get(&volume_num) {
            Some(p) => Some(p.as_str()),
            None => None,
        }
    }

    /// Checks if the given file belongs to the same backup set, by looking at
    /// timestamps.
    pub fn is_same_set(&self, pr: &fnm::Info) -> (r: bool)
        ensures
            r == same_set(self@.tp, pr.tp),
    {
        match self.tp {
            Type::Full { time: my_time } => match pr.tp {
                fnm::Type::Full { time, .. } | fnm::Type::FullManifest { time, .. }
                | fnm::Type::FullSig { time, .. } => timespec_eq(&my_time, &time),
                _ => false,
            },
            Type::Inc { start_time: my_start, end_time: my_end } => match pr.tp {
                fnm::Type::Inc { start_time, end_time, .. }
                | fnm::Type::IncManifest { start_time, end_time, .. }
                | fnm::Type::NewSig { start_time, end_time, .. } => timespec_eq(&my_start, &start_time)
                    && timespec_eq(&my_end, &end_time),
                _ => false,
            },
        }
    }

    pub fn is_full(&self) -> (r: bool)
        ensures
            r == (self@.tp is Full),
    {
        matches!(self.tp, Type::Full { .. })
    }

    pub fn is_incremental(&self) -> (r: bool)
        ensures
            r == (self@.tp is Inc),
    {
        matches!(self.tp, Type::Inc { .. })
    }

    /// The number of volumes seen for this set.
    pub fn num_volumes(&self) -> (r: usize)
        ensures
            r == self@.volumes.len(),
    {
        assert(self.volumes_paths@.dom() =~= self@.volumes.dom());
        self.volumes_paths.len()
    }

    fn fix_encrypted(&mut self, pr_encrypted: bool)
        ensures
            final(self)@ == (BackupSetView {
                encrypted: old(self)@.encrypted || (old(self)@.partial && pr_encrypted),
                ..old(self)@
            }),
    {
        if self.encrypted != pr_encrypted && self.partial && pr_encrypted {
            self.encrypted = pr_encrypted;
        }
    }
}

impl TimeKeyed for BackupSet {
    open spec fn key_of(v: BackupSetView) -> Timespec {
        v.tp.spec_end_time()
    }

    fn time_key(&self) -> (r: Timespec) {
        self.end_time()
    }
}


/// Contains information about a backup chain.
///
/// A backup chain is composed by one full and all the incremental backup
/// snapshots before the next full one.
#[derive(Debug)]
pub struct BackupChain {
    fullset: BackupSet,
    incsets: Vec<BackupSet>,
    start_time: Timespec,
    end_time: Timespec,
}

/// What a backup chain holds.
pub struct BackupChainView {
    pub fullset: BackupSetView,
    pub incsets: Seq<BackupSetView>,
    pub start_time: Timespec,
    pub end_time: Timespec,
}

impl View for BackupChain {
    type V = BackupChainView;

    closed spec fn view(&self) -> BackupChainView {
        BackupChainView {
            fullset: self.fullset@,
            incsets: views(self.incsets@),
            start_time: self.start_time,
            end_time: self.end_time,
        }
    }
}

/// A well-formed chain: a full set that starts it, then incremental sets
/// each of which starts where the previous one ended; the chain ends where
/// its last set ends.
pub open spec fn chain_wf(c: BackupChainView) -> bool {
    &&& c.fullset.tp is Full
    &&& c.start_time == c.fullset.tp.spec_end_time()
    &&& forall|i: int| 0 <= i < c.incsets.len() ==> #[trigger] c.incsets[i].tp is Inc
    &&& c.incsets.len() > 0 ==> c.incsets[0].tp.spec_start_time() == c.start_time
    &&& forall|i: int|
        0 < i < c.incsets.len() ==> #[trigger] c.incsets[i].tp.spec_start_time()
            == c.incsets[i - 1].tp.spec_end_time()
    &&& c.end_time == if c.incsets.len() == 0 {
        c.start_time
    } else {
        c.incsets.last().tp.spec_end_time()
    }
}

/// Adding an incremental set to a chain: the chain after the call and the
/// set handed back, if it was not taken. A set that starts where the chain
/// ends is appended; a set that starts with the last set and ends later
/// replaces it; any other set, full ones too, is handed back.
pub open spec fn spec_add_inc(c: BackupChainView, s: BackupSetView) -> (BackupChainView, Option<BackupSetView>) {
    match s.tp {
        Type::Inc { start_time, end_time } => if c.end_time == start_time {
            (BackupChainView { end_time, incsets: c.incsets.push(s), ..c }, None)
        } else if c.incsets.len() > 0 && start_time == c.incsets.last().tp.spec_start_time() && ts_lt(
            c.incsets.last().tp.spec_end_time(),
            end_time,
        ) {
            (BackupChainView { end_time, incsets: c.incsets.drop_last().push(s), ..c }, None)
        } else {
            (c, Some(s))
        },
        Type::Full { .. } => (c, Some(s)),
    }
}

impl BackupChain {
    /// Create a new BackupChain starting from a full backup set.
    pub fn new(fullset: BackupSet) -> (r: Self)
        requires
            fullset@.tp is Full,
        ensures
            r@ == new_chain(fullset@),
            chain_wf(r@),
    {
        let time = fullset.end_time();
        let r = BackupChain { fullset, incsets: Vec::new(), start_time: time, end_time: time };
        assert(r@.incsets =~= Seq::<BackupSetView>::empty());
        r
    }

    /// Adds the given incremental backup set to the chain if possible
    /// (see `spec_add_inc`), returns it back otherwise. A well-formed chain
    /// stays well-formed.
    pub fn add_inc(&mut self, incset: BackupSet) -> (r: Option<BackupSet>)
        ensures
            final(self)@ == spec_add_inc(old(self)@, incset@).0,
            match r {
                Some(s) => spec_add_inc(old(self)@, incset@).1 == Some(s@) && s@ == incset@,
                None => spec_add_inc(old(self)@, incset@).1 is None,
            },
            chain_wf(old(self)@) ==> chain_wf(final(self)@),
    {
        let ghost old_incs = self.incsets@;
        if let Type::Inc { start_time, end_time } = incset.tp {
            if timespec_eq(&self.end_time, &start_time) {
                self.end_time = end_time;
                self.incsets.push(incset);
                assert(views(self.incsets@) =~= views(old_incs).push(incset@));
                None
            } else {
                let n = self.incsets.len();
                let replace_last = n > 0 && timespec_eq(&start_time, &self.incsets[n - 1].tp.start_time())
                    && timespec_lt(&self.incsets[n - 1].tp.end_time(), &end_time);
                if replace_last {
                    assert(views(old_incs).last() == self.incsets@[n - 1]@);
                    self.end_time = end_time;
                    self.incsets.pop();
                    self.incsets.push(incset);
                    assert(views(self.incsets@) =~= views(old_incs).drop_last().push(incset@));
                    None
                } else {
                    Some(incset)
                }
            }
        } else {
            Some(incset)
        }
    }

    /// The full set that starts the chain.
    pub fn full_set(&self) -> (r: &BackupSet)
        ensures
            r@ == self@.fullset,
    {
        &self.fullset
    }

    /// The incremental sets of the chain, in order.
    pub fn inc_sets(&self) -> (r: BackupSetIter<'_>)
        ensures
            views(vstd::std_specs::slice::into_iter_elts(r)) == self@.incsets,
    {
        broadcast use vstd::std_specs::slice::axiom_spec_slice_iter;
        self.incsets.iter()
    }

    pub fn start_time(&self) -> (r: Timespec)
        ensures
            r == self@.start_time,
    {
        self.start_time
    }

    pub fn end_time(&self) -> (r: Timespec)
        ensures
            r == self@.end_time,
    {
        self.end_time
    }

    /// The number of incremental sets.
    pub fn num_inc_sets(&self) -> (r: usize)
        ensures
            r == self@.incsets.len(),
    {
        self.incsets.len()
    }

    /// The set at the given position of the chain: the full set first,
    /// then the incremental sets.
    pub fn nth_set(&self, n: usize) -> (r: Option<&BackupSet>)
        ensures
            n == 0 ==> (r matches Some(s) && s@ == self@.fullset),
            0 < n <= self@.incsets.len() ==> (r matches Some(s) && s@ == self@.incsets[n - 1]),
            n > self@.incsets.len() ==> r is None,
    {
        if n == 0 {
            Some(&self.fullset)
        } else if n - 1 < self.incsets.len() {
            Some(&self.incsets[n - 1])
        } else {
            None
        }
    }

    /// The incremental set at the given position.
    pub fn inc_set(&self, i: usize) -> (r: &BackupSet)
        requires
            i < self@.incsets.len(),
        ensures
            r@ == self@.incsets[i as int],
    {
        &self.incsets[i]
    }
}

impl TimeKeyed for BackupChain {
    open spec fn key_of(v: BackupChainView) -> Timespec {
        v.end_time
    }

    fn time_key(&self) -> (r: Timespec) {
        self.end_time
    }
}


/// Information about a signature file.
#[derive(Debug)]
pub struct SignatureFile {
    pub file_name: String,
    pub time: Timespec,
    pub compressed: bool,
    pub encrypted: bool,
}

/// What a signature file record holds.
pub struct SignatureFileView {
    pub file_name: Seq<char>,
    pub time: Timespec,
    pub compressed: bool,
    pub encrypted: bool,
}

impl View for SignatureFile {
    type V = SignatureFileView;

    open spec fn view(&self) -> SignatureFileView {
        SignatureFileView {
            file_name: self.file_name@,
            time: self.time,
            compressed: self.compressed,
            encrypted: self.encrypted,
        }
    }
}

/// The file is a signature, full or incremental.
pub open spec fn is_signature(t: fnm::Type) -> bool {
    t is FullSig || t is NewSig
}

/// The record of a signature file: its time is the time of a full
/// signature, or the end time of an incremental one.
pub open spec fn signature_file_of(name: Seq<char>, info: Info) -> SignatureFileView {
    SignatureFileView {
        file_name: name,
        time: match info.tp {
            fnm::Type::NewSig { end_time, .. } => end_time,
            _ => info.tp.spec_time_range().0,
        },
        compressed: info.compressed,
        encrypted: info.encrypted,
    }
}

impl SignatureFile {
    /// The record of a signature file, from its name and what it tells.
    pub fn from_file_and_info(fname: &str, pr: &fnm::Info) -> (r: Self)
        requires
            is_signature(pr.tp),
        ensures
            r@ == signature_file_of(fname@, *pr),
    {
        let time = match pr.tp {
            fnm::Type::NewSig { end_time, .. } => end_time,
            _ => pr.tp.time_range().0,
        };
        SignatureFile {
            file_name: fname.to_owned(),
            time,
            compressed: pr.compressed,
            encrypted: pr.encrypted,
        }
    }

    pub fn from_filename_info(info: &FileNameInfo) -> (r: Self)
        requires
            is_signature(info.info.tp),
        ensures
            r@ == signature_file_of(info.file_name@, info.info),
    {
        Self::from_file_and_info(info.file_name, &info.info)
    }
}

/// Contains information about signatures in a backup chain: a full
/// signature and incremental ones.
#[derive(Debug)]
pub struct SignatureChain {
    fullsig: SignatureFile,
    incsigs: Vec<SignatureFile>,
}

/// What a signature chain holds.
pub struct SignatureChainView {
    pub fullsig: SignatureFileView,
    pub incsigs: Seq<SignatureFileView>,
}

impl View for SignatureChain {
    type V = SignatureChainView;

    closed spec fn view(&self) -> SignatureChainView {
        SignatureChainView { fullsig: self.fullsig@, incsigs: views(self.incsigs@) }
    }
}

/// When a chain of signatures ends: at its last incremental signature, or
/// at its full signature.
pub open spec fn sig_chain_end(c: SignatureChainView) -> Timespec {
    if c.incsigs.len() == 0 {
        c.fullsig.time
    } else {
        c.incsigs.last().time
    }
}

/// The chain with the file added, when the file is an incremental
/// signature that starts where the chain ends.
pub open spec fn spec_add_new_sig(c: SignatureChainView, f: (Seq<char>, Info)) -> Option<SignatureChainView> {
    match f.1.tp {
        fnm::Type::NewSig { start_time, .. } => if start_time == sig_chain_end(c) {
            Some(SignatureChainView { incsigs: c.incsigs.push(signature_file_of(f.0, f.1)), ..c })
        } else {
            None
        },
        _ => None,
    }
}

/// The first chain, from position `j` on, that takes the file.
pub open spec fn first_taker_from(cs: Seq<SignatureChainView>, f: (Seq<char>, Info), j: int) -> Option<int>
    decreases cs.len() - j,
{
    if j < 0 || j >= cs.len() {
        None
    } else if spec_add_new_sig(cs[j], f) is Some {
        Some(j)
    } else {
        first_taker_from(cs, f, j + 1)
    }
}

/// The chains once the file is offered to them in order: the first that
/// takes it gets it; when none does, they stay as they are.
pub open spec fn offer_sig(cs: Seq<SignatureChainView>, f: (Seq<char>, Info)) -> Seq<SignatureChainView> {
    match first_taker_from(cs, f, 0) {
        Some(j) => cs.update(j, spec_add_new_sig(cs[j], f)->0),
        None => cs,
    }
}

/// The chains once the files are offered to them one after the other.
pub open spec fn offer_sigs(cs: Seq<SignatureChainView>, fs: Seq<(Seq<char>, Info)>) -> Seq<SignatureChainView>
    decreases fs.len(),
{
    if fs.len() == 0 {
        cs
    } else {
        offer_sig(offer_sigs(cs, fs.drop_last()), fs.last())
    }
}

impl TimeKeyed for SignatureChain {
    open spec fn key_of(v: SignatureChainView) -> Timespec {
        v.fullsig.time
    }

    fn time_key(&self) -> (r: Timespec) {
        self.fullsig.time
    }
}

impl SignatureChain {
    /// Creates a new chain starting from a signature.
    pub fn new(fname: &str, pr: &fnm::Info) -> (r: Self)
        requires
            is_signature(pr.tp),
        ensures
            r@.fullsig == signature_file_of(fname@, *pr),
            r@.incsigs.len() == 0,
    {
        let r = SignatureChain {
            fullsig: SignatureFile::from_file_and_info(fname, pr),
            incsigs: Vec::new(),
        };
        assert(r@.incsigs =~= Seq::<SignatureFileView>::empty());
        r
    }

    pub fn from_filename_info(fname_info: &FileNameInfo) -> (r: Self)
        requires
            is_signature(fname_info.info.tp),
        ensures
            r@.fullsig == signature_file_of(fname_info.file_name@, fname_info.info),
            r@.incsigs.len() == 0,
    {
        Self::new(fname_info.file_name, &fname_info.info)
    }

    /// Adds an incremental signature to the chain when it starts where the
    /// chain ends, and returns true; any other file leaves the chain
    /// unchanged and gives false.
    pub fn add_new_sig(&mut self, fname: &FileNameInfo) -> (r: bool)
        ensures
            r == spec_add_new_sig(old(self)@, fname@) is Some,
            r ==> final(self)@ == spec_add_new_sig(old(self)@, fname@)->0,
            !r ==> final(self)@ == old(self)@,
    {
        if let fnm::Type::NewSig { start_time, .. } = fname.info.tp {
            let end = self.end_time();
            if !timespec_eq(&start_time, &end) {
                return false;
            }
            let ghost before = self.incsigs@;
            self.incsigs.push(SignatureFile::from_filename_info(fname));
            assert(views(self.incsigs@) =~= views(before).push(
                signature_file_of(fname.file_name@, fname.info),
            ));
            true
        } else {
            false
        }
    }

    /// The full signature of the chain.
    pub fn full_signature(&self) -> (r: &SignatureFile)
        ensures
            r@ == self@.fullsig,
    {
        &self.fullsig
    }

    /// The incremental signatures, in order.
    pub fn inc_signatures(&self) -> (r: std::slice::Iter<'_, SignatureFile>)
        ensures
            views(vstd::std_specs::slice::into_iter_elts(r)) == self@.incsigs,
    {
        broadcast use vstd::std_specs::slice::axiom_spec_slice_iter;
        self.incsigs.iter()
    }

    /// The number of incremental signatures.
    pub fn num_inc_signatures(&self) -> (r: usize)
        ensures
            r == self@.incsigs.len(),
    {
        self.incsigs.len()
    }

    /// The incremental signature at the given position.
    pub fn inc_signature(&self, i: usize) -> (r: &SignatureFile)
        requires
            i < self@.incsigs.len(),
        ensures
            r@ == self@.incsigs[i as int],
    {
        &self.incsigs[i]
    }

    /// The time of the full signature.
    pub fn start_time(&self) -> (r: Timespec)
        ensures
            r == self@.fullsig.time,
    {
        self.fullsig.time
    }

    /// The time of the last signature of the chain.
    pub fn end_time(&self) -> (r: Timespec)
        ensures
            r == if self@.incsigs.len() == 0 {
                self@.fullsig.time
            } else {
                self@.incsigs.last().time
            },
    {
        let n = self.incsigs.len();
        if n == 0 {
            self.start_time()
        } else {
            self.incsigs[n - 1].time
        }
    }
}


/// General information about a backup: its backup chains and signature
/// chains.
#[derive(Debug)]
pub struct Collections {
    backup_chains: Vec<BackupChain>,
    sig_chains: Vec<SignatureChain>,
}

/// What a collection holds.
pub struct CollectionsView {
    pub backup_chains: Seq<BackupChainView>,
    pub sig_chains: Seq<SignatureChainView>,
}

impl View for Collections {
    type V = CollectionsView;

    closed spec fn view(&self) -> CollectionsView {
        CollectionsView {
            backup_chains: views(self.backup_chains@),
            sig_chains: views(self.sig_chains@),
        }
    }
}

/// The backup files among the names, in order, with what each tells.
pub open spec fn filename_infos(names: Seq<Seq<char>>) -> Seq<(Seq<char>, Info)>
    decreases names.len(),
{
    if names.len() == 0 {
        Seq::empty()
    } else {
        let rest = filename_infos(names.drop_last());
        match spec_parse_name(names.last()) {
            Some(info) => rest.push((names.last(), info)),
            None => rest,
        }
    }
}

/// The position of the first set that a file belongs to.
pub open spec fn first_same_set(sets: Seq<BackupSetView>, t: fnm::Type) -> Option<int>
    decreases sets.len(),
{
    if sets.len() == 0 {
        None
    } else if same_set(sets[0].tp, t) {
        Some(0)
    } else {
        match first_same_set(sets.drop_first(), t) {
            Some(i) => Some(i + 1),
            None => None,
        }
    }
}

/// Sets after a file has been added to the first set it belongs to, or has
/// started a new set at the end.
pub open spec fn add_to_sets(sets: Seq<BackupSetView>, name: Seq<char>, info: Info) -> Seq<BackupSetView> {
    match first_same_set(sets, info.tp) {
        Some(i) => sets.update(i, add_file(sets[i], name, info)),
        None => sets.push(new_set(name, info)),
    }
}

/// The sets that the files form, in order of first appearance.
pub open spec fn group_sets(infos: Seq<(Seq<char>, Info)>) -> Seq<BackupSetView>
    decreases infos.len(),
{
    if infos.len() == 0 {
        Seq::empty()
    } else {
        add_to_sets(group_sets(infos.drop_last()), infos.last().0, infos.last().1)
    }
}

/// The backup sets of the files, sorted by end time.
pub open spec fn spec_backup_sets(infos: Seq<(Seq<char>, Info)>) -> Seq<BackupSetView> {
    sort_by_key(group_sets(infos), key_fn::<BackupSet>())
}

/// The chain that a full set starts.
pub open spec fn new_chain(s: BackupSetView) -> BackupChainView {
    BackupChainView {
        fullset: s,
        incsets: Seq::empty(),
        start_time: s.tp.spec_end_time(),
        end_time: s.tp.spec_end_time(),
    }
}

/// The position of the first chain that takes an incremental set.
pub open spec fn first_taking_chain(chains: Seq<BackupChainView>, s: BackupSetView) -> Option<int>
    decreases chains.len(),
{
    if chains.len() == 0 {
        None
    } else if spec_add_inc(chains[0], s).1 is None {
        Some(0)
    } else {
        match first_taking_chain(chains.drop_first(), s) {
            Some(i) => Some(i + 1),
            None => None,
        }
    }
}

/// Chains after an incremental set has been offered to them in order; a
/// set that no chain takes is dropped.
pub open spec fn add_to_chains(chains: Seq<BackupChainView>, s: BackupSetView) -> Seq<BackupChainView> {
    match first_taking_chain(chains, s) {
        Some(i) => chains.update(i, spec_add_inc(chains[i], s).0),
        None => chains,
    }
}

/// The chains that sets form, taken in order: a full set starts a chain,
/// an incremental set goes to the first chain that takes it.
pub open spec fn build_chains(sets: Seq<BackupSetView>) -> Seq<BackupChainView>
    decreases sets.len(),
{
    if sets.len() == 0 {
        Seq::empty()
    } else {
        let chains = build_chains(sets.drop_last());
        let s = sets.last();
        if s.tp is Full {
            chains.push(new_chain(s))
        } else {
            add_to_chains(chains, s)
        }
    }
}

/// The backup chains of the files, sorted by end time.
pub open spec fn spec_backup_chains(infos: Seq<(Seq<char>, Info)>) -> Seq<BackupChainView> {
    sort_by_key(build_chains(spec_backup_sets(infos)), key_fn::<BackupChain>())
}

/// The full signatures among the files, in order.
pub open spec fn full_sigs(infos: Seq<(Seq<char>, Info)>) -> Seq<SignatureFileView>
    decreases infos.len(),
{
    if infos.len() == 0 {
        Seq::empty()
    } else if infos.last().1.tp is FullSig {
        full_sigs(infos.drop_last()).push(signature_file_of(infos.last().0, infos.last().1))
    } else {
        full_sigs(infos.drop_last())
    }
}

/// The incremental signatures among the files, in order.
pub open spec fn new_sigs(infos: Seq<(Seq<char>, Info)>) -> Seq<(Seq<char>, Info)>
    decreases infos.len(),
{
    if infos.len() == 0 {
        Seq::empty()
    } else if infos.last().1.tp is NewSig {
        new_sigs(infos.drop_last()).push(infos.last())
    } else {
        new_sigs(infos.drop_last())
    }
}

/// A new signature chain for each full signature.
pub open spec fn fresh_sig_chains(fulls: Seq<SignatureFileView>) -> Seq<SignatureChainView> {
    fulls.map_values(|f: SignatureFileView| SignatureChainView { fullsig: f, incsigs: Seq::empty() })
}

/// The signature chains of the files: one for each full signature, in
/// chronological order (full signatures of the same time in the order of
/// the files). The incremental signatures, taken by start time, are then
/// offered to the chains in order, and each goes to the first chain that
/// ends where it starts; one that no chain takes is left out.
pub open spec fn spec_signature_chains(infos: Seq<(Seq<char>, Info)>) -> Seq<SignatureChainView> {
    offer_sigs(
        sort_by_key(fresh_sig_chains(full_sigs(infos)), key_fn::<SignatureChain>()),
        sort_by_key(new_sigs(infos), key_fn::<FileNameInfo>()),
    )
}

/// The collection that a list of file names gives.
pub open spec fn spec_collections(names: Seq<Seq<char>>) -> CollectionsView {
    let infos = filename_infos(names);
    CollectionsView {
        backup_chains: spec_backup_chains(infos),
        sig_chains: spec_signature_chains(infos),
    }
}

/// A position shifted by `j`.
pub open spec fn shift_opt(o: Option<int>, j: int) -> Option<int> {
    match o {
        Some(k) => Some(k + j),
        None => None,
    }
}

/// The number of snapshots (backup sets) in a list of chains.
pub open spec fn count_snapshots(chains: Seq<BackupChainView>) -> int
    decreases chains.len(),
{
    if chains.len() == 0 {
        0
    } else {
        count_snapshots(chains.drop_last()) + 1 + chains.last().incsets.len()
    }
}

/// The text views of a list of names.
pub open spec fn name_views(names: Seq<&str>) -> Seq<Seq<char>> {
    names.map_values(|n: &str| n@)
}

impl<'a> TimeKeyed for FileNameInfo<'a> {
    open spec fn key_of(v: (Seq<char>, Info)) -> Timespec {
        v.1.tp.spec_time_range().0
    }

    fn time_key(&self) -> (r: Timespec) {
        self.info.tp.time_range().0
    }
}

impl Collections {
    /// Creates a new empty collection.
    pub fn new() -> (r: Self)
        ensures
            r@.backup_chains.len() == 0,
            r@.sig_chains.len() == 0,
    {
        let r = Collections { backup_chains: Vec::new(), sig_chains: Vec::new() };
        assert(r@.backup_chains =~= Seq::<BackupChainView>::empty());
        assert(r@.sig_chains =~= Seq::<SignatureChainView>::empty());
        r
    }

    /// Creates a collection from a list of file names. The files are not
    /// opened: information is collected from the names alone.
    pub fn from_filenames(filenames: &[&str]) -> (r: Self)
        ensures
            r@ == spec_collections(name_views(filenames@)),
    {
        let infos = compute_filename_infos(filenames);
        Collections {
            backup_chains: compute_backup_chains(&infos),
            sig_chains: compute_signature_chains(&infos),
        }
    }

    /// Returns the backup chains, in chronological order: each is coupled
    /// with the signature chain at the same position.
    pub fn backup_chains(&self) -> (r: ChainIter<'_, BackupChain>)
        ensures
            views(vstd::std_specs::slice::into_iter_elts(r)) == self@.backup_chains,
    {
        broadcast use vstd::std_specs::slice::axiom_spec_slice_iter;
        self.backup_chains.iter()
    }

    /// Returns the signature chains, in chronological order.
    pub fn signature_chains(&self) -> (r: ChainIter<'_, SignatureChain>)
        ensures
            views(vstd::std_specs::slice::into_iter_elts(r)) == self@.sig_chains,
    {
        broadcast use vstd::std_specs::slice::axiom_spec_slice_iter;
        self.sig_chains.iter()
    }

    /// The number of backup chains.
    pub fn num_backup_chains(&self) -> (r: usize)
        ensures
            r == self@.backup_chains.len(),
    {
        self.backup_chains.len()
    }

    /// The backup chain at the given position.
    pub fn backup_chain(&self, i: usize) -> (r: &BackupChain)
        requires
            i < self@.backup_chains.len(),
        ensures
            r@ == self@.backup_chains[i as int],
    {
        &self.backup_chains[i]
    }

    /// The number of signature chains.
    pub fn num_signature_chains(&self) -> (r: usize)
        ensures
            r == self@.sig_chains.len(),
    {
        self.sig_chains.len()
    }

    /// The signature chain at the given position.
    pub fn signature_chain(&self, i: usize) -> (r: &SignatureChain)
        requires
            i < self@.sig_chains.len(),
        ensures
            r@ == self@.sig_chains[i as int],
    {
        &self.sig_chains[i]
    }

    /// The number of snapshots, when it fits in a `usize`.
    pub fn checked_num_snapshots(&self) -> (r: Option<usize>)
        ensures
            match r {
                Some(n) => n == count_snapshots(self@.backup_chains),
                None => count_snapshots(self@.backup_chains) > usize::MAX,
            },
    {
        let mut total: usize = 0;
        let mut i: usize = 0;
        let ghost cs = self@.backup_chains;
        while i < self.backup_chains.len()
            invariant
                i <= self.backup_chains.len(),
                cs == self@.backup_chains,
                cs == views(self.backup_chains@),
                total == count_snapshots(cs.take(i as int)),
            decreases self.backup_chains.len() - i,
        {
            assert(cs.take(i + 1).drop_last() =~= cs.take(i as int));
            let n = self.backup_chains[i].num_inc_sets();
            if total >= usize::MAX || n > usize::MAX - 1 - total {
                proof {
                    lemma_count_snapshots_prefix(cs, i + 1);
                }
                return None;
            }
            total = total + 1 + n;
            i = i + 1;
        }
        assert(cs.take(i as int) =~= cs);
        Some(total)
    }

    /// The number of snapshots: one per backup set in all the chains.
    pub fn num_snapshots(&self) -> (r: usize)
        requires
            count_snapshots(self@.backup_chains) <= usize::MAX,
        ensures
            r == count_snapshots(self@.backup_chains),
    {
        let mut total: usize = 0;
        let mut i: usize = 0;
        let ghost cs = self@.backup_chains;
        while i < self.backup_chains.len()
            invariant
                i <= self.backup_chains.len(),
                cs == self@.backup_chains,
                cs == views(self.backup_chains@),
                count_snapshots(cs) <= usize::MAX,
                total == count_snapshots(cs.take(i as int)),
            decreases self.backup_chains.len() - i,
        {
            assert(cs.take(i + 1).drop_last() =~= cs.take(i as int));
            proof {
                lemma_count_snapshots_prefix(cs, i + 1);
            }
            total = total + 1 + self.backup_chains[i].num_inc_sets();
            i = i + 1;
        }
        assert(cs.take(i as int) =~= cs);
        total
    }
}

/// Snapshots of a prefix of the chains are no more than those of all.
pub proof fn lemma_count_snapshots_prefix(cs: Seq<BackupChainView>, n: int)
    requires
        0 <= n <= cs.len(),
    ensures
        count_snapshots(cs.take(n)) <= count_snapshots(cs),
        count_snapshots(cs.take(n)) >= 0,
    decreases cs.len(),
{
    if cs.len() > 0 {
        if n == cs.len() {
            assert(cs.take(n) =~= cs);
            lemma_count_snapshots_prefix(cs.drop_last(), 0);
        } else {
            assert(cs.take(n) =~= cs.drop_last().take(n));
            lemma_count_snapshots_prefix(cs.drop_last(), n);
        }
    } else {
        assert(cs.take(n) =~= cs);
    }
}

/// The backup files among the names, with what each tells.
fn compute_filename_infos<'a>(filenames: &[&'a str]) -> (r: Vec<FileNameInfo<'a>>)
    ensures
        views(r@) == filename_infos(name_views(filenames@)),
{
    let mut result: Vec<FileNameInfo<'a>> = Vec::new();
    let parser = FileNameParser::new();
    let mut i: usize = 0;
    while i < filenames.len()
        invariant
            i <= filenames@.len(),
            views(result@) == filename_infos(name_views(filenames@.take(i as int))),
        decreases filenames@.len() - i,
    {
        let name = filenames[i];
        let ghost before = result@;
        assert(name_views(filenames@.take(i + 1)).drop_last() =~= name_views(filenames@.take(i as int)));
        assert(name_views(filenames@.take(i + 1)).last() == name@);
        if let Some(info) = parser.parse(name) {
            result.push(FileNameInfo::new(name, info));
            assert(views(result@) =~= views(before).push((name@, info)));
        }
        i = i + 1;
    }
    assert(filenames@.take(i as int) =~= filenames@);
    result
}

/// Adds a file to the first set it belongs to, or starts a new set.
fn add_to_sets_exec(sets: &mut Vec<BackupSet>, fileinfo: &FileNameInfo)
    ensures
        views(final(sets)@) == add_to_sets(views(old(sets)@), fileinfo.file_name@, fileinfo.info),
{
    let ghost old_views = views(sets@);
    assert(old_views.subrange(0, old_views.len() as int) =~= old_views);
    let mut j: usize = 0;
    while j < sets.len()
        invariant
            j <= sets.len(),
            old_views == views(old(sets)@),
            views(sets@) == old_views,
            first_same_set(old_views, fileinfo.info.tp) == shift_opt(first_same_set(
                old_views.subrange(j as int, old_views.len() as int),
                fileinfo.info.tp,
            ), j as int),
        decreases sets.len() - j,
    {
        let ghost tail = old_views.subrange(j as int, old_views.len() as int);
        assert(tail[0] == old_views[j as int]);
        assert(views(sets@)[j as int] == sets@[j as int]@);
        let mut s = sets.remove(j);
        let ok = s.add_filename(fileinfo);
        sets.insert(j, s);
        if ok {
            assert(same_set(old_views[j as int].tp, fileinfo.info.tp));
            assert(first_same_set(tail, fileinfo.info.tp) == Some(0int));
            assert(views(sets@) =~= old_views.update(
                j as int,
                add_file(old_views[j as int], fileinfo.file_name@, fileinfo.info),
            ));
            return;
        }
        assert(views(sets@) =~= old_views);
        assert(tail.drop_first() =~= old_views.subrange(j + 1, old_views.len() as int));
        j = j + 1;
    }
    assert(old_views.subrange(j as int, old_views.len() as int).len() == 0);
    sets.push(BackupSet::new(fileinfo));
    assert(views(sets@) =~= old_views.push(new_set(fileinfo.file_name@, fileinfo.info)));
}

/// The backup sets that the files form, sorted by end time.
fn compute_backup_sets(fname_infos: &[FileNameInfo]) -> (r: Vec<BackupSet>)
    ensures
        views(r@) == spec_backup_sets(views(fname_infos@)),
{
    let mut sets: Vec<BackupSet> = Vec::new();
    let mut i: usize = 0;
    let ghost iv = views(fname_infos@);
    while i < fname_infos.len()
        invariant
            i <= fname_infos@.len(),
            iv == views(fname_infos@),
            views(sets@) == group_sets(iv.take(i as int)),
        decreases fname_infos@.len() - i,
    {
        assert(iv.take(i + 1).drop_last() =~= iv.take(i as int));
        add_to_sets_exec(&mut sets, &fname_infos[i]);
        i = i + 1;
    }
    assert(iv.take(i as int) =~= iv);
    stable_sort_by_time(sets)
}

/// Offers an incremental set to the chains in order.
fn add_to_chains_exec(chains: &mut Vec<BackupChain>, set: BackupSet)
    ensures
        views(final(chains)@) == add_to_chains(views(old(chains)@), set@),
{
    let ghost old_views = views(chains@);
    assert(old_views.subrange(0, old_views.len() as int) =~= old_views);
    let ghost sv = set@;
    let mut rejected = Some(set);
    let mut j: usize = 0;
    while j < chains.len()
        invariant
            j <= chains.len(),
            old_views == views(old(chains)@),
            sv == set@,
            views(chains@) == old_views,
            rejected matches Some(x) && x@ == sv,
            first_taking_chain(old_views, sv) == shift_opt(first_taking_chain(
                old_views.subrange(j as int, old_views.len() as int),
                sv,
            ), j as int),
        decreases chains.len() - j,
    {
        let ghost tail = old_views.subrange(j as int, old_views.len() as int);
        assert(tail[0] == old_views[j as int]);
        assert(views(chains@)[j as int] == chains@[j as int]@);
        let mut c = chains.remove(j);
        let back = match rejected {
            Some(x) => c.add_inc(x),
            None => None,
        };
        chains.insert(j, c);
        match back {
            None => {
                assert(spec_add_inc(old_views[j as int], sv).1 is None);
                assert(first_taking_chain(tail, sv) == Some(0int));
                assert(views(chains@) =~= old_views.update(
                    j as int,
                    spec_add_inc(old_views[j as int], sv).0,
                ));
                return;
            },
            Some(x) => {
                rejected = Some(x);
            },
        }
        assert(views(chains@) =~= old_views);
        assert(tail.drop_first() =~= old_views.subrange(j + 1, old_views.len() as int));
        j = j + 1;
    }
    assert(old_views.subrange(j as int, old_views.len() as int).len() == 0);
}

/// The backup chains that the files form, sorted by end time.
fn compute_backup_chains(fname_infos: &[FileNameInfo]) -> (r: Vec<BackupChain>)
    ensures
        views(r@) == spec_backup_chains(views(fname_infos@)),
{
    let sets = compute_backup_sets(fname_infos);
    let ghost sv = views(sets@);
    let mut backup_chains: Vec<BackupChain> = Vec::new();
    let mut sets = sets;
    let ghost mut done: int = 0;
    while sets.len() > 0
        invariant
            0 <= done <= sv.len(),
            views(sets@) == sv.subrange(done, sv.len() as int),
            views(backup_chains@) == build_chains(sv.take(done)),
        decreases sets.len(),
    {
        let ghost old_sets = sets@;
        assert(views(old_sets)[0] == old_sets[0]@);
        assert(views(old_sets).len() == old_sets.len());
        assert(sv.subrange(done, sv.len() as int)[0] == sv[done]);
        let set = sets.remove(0);
        assert(set@ == sv[done]);
        assert(sv.take(done + 1).drop_last() =~= sv.take(done));
        assert(sv.take(done + 1).last() == sv[done]);
        if set.is_full() {
            let ghost before = views(backup_chains@);
            backup_chains.push(BackupChain::new(set));
            assert(views(backup_chains@) =~= before.push(new_chain(sv[done])));
        } else {
            add_to_chains_exec(&mut backup_chains, set);
        }
        proof {
            done = done + 1;
        }
        assert(views(sets@) =~= views(old_sets).subrange(1, old_sets.len() as int));
        assert(views(sets@) =~= sv.subrange(done, sv.len() as int));
    }
    assert(sv.take(done) =~= sv);
    stable_sort_by_time(backup_chains)
}

/// The signature chains that the files form.
fn compute_signature_chains(fname_infos: &[FileNameInfo]) -> (r: Vec<SignatureChain>)
    ensures
        views(r@) == spec_signature_chains(views(fname_infos@)),
{
    let ghost iv = views(fname_infos@);
    let mut sig_chains: Vec<SignatureChain> = Vec::new();
    let mut new_sig: Vec<FileNameInfo> = Vec::new();
    let mut i: usize = 0;
    while i < fname_infos.len()
        invariant
            i <= fname_infos@.len(),
            iv == views(fname_infos@),
            views(sig_chains@) == full_sigs(iv.take(i as int)).map_values(
                |f: SignatureFileView| SignatureChainView { fullsig: f, incsigs: Seq::empty() },
            ),
            views(new_sig@) == new_sigs(iv.take(i as int)),
        decreases fname_infos@.len() - i,
    {
        let f = fname_infos[i];
        assert(iv.take(i + 1).drop_last() =~= iv.take(i as int));
        assert(iv.take(i + 1).last() == f@);
        match f.info.tp {
            fnm::Type::FullSig { .. } => {
                assert(full_sigs(iv.take(i + 1)) == full_sigs(iv.take(i as int)).push(
                    signature_file_of(f.file_name@, f.info),
                ));
                assert(new_sigs(iv.take(i + 1)) == new_sigs(iv.take(i as int)));
                let ghost before = views(sig_chains@);
                let c = SignatureChain::from_filename_info(&f);
                assert(c@.incsigs =~= Seq::<SignatureFileView>::empty());
                let ghost cv = c@;
                sig_chains.push(c);
                assert(views(sig_chains@) =~= before.push(cv));
                let ghost g = |f: SignatureFileView| SignatureChainView { fullsig: f, incsigs: Seq::empty() };
                assert(full_sigs(iv.take(i as int)).push(signature_file_of(f.file_name@, f.info)).map_values(g)
                    =~= full_sigs(iv.take(i as int)).map_values(g).push(g(signature_file_of(f.file_name@, f.info))));
                assert(views(sig_chains@) =~= full_sigs(iv.take(i + 1)).map_values(g));
            },
            fnm::Type::NewSig { .. } => {
                assert(full_sigs(iv.take(i + 1)) == full_sigs(iv.take(i as int)));
                assert(new_sigs(iv.take(i + 1)) == new_sigs(iv.take(i as int)).push(f@));
                let ghost before = views(new_sig@);
                new_sig.push(f);
                assert(views(new_sig@) =~= before.push(f@));
            },
            _ => {
                assert(full_sigs(iv.take(i + 1)) == full_sigs(iv.take(i as int)));
                assert(new_sigs(iv.take(i + 1)) == new_sigs(iv.take(i as int)));
            },
        }
        i = i + 1;
    }
    assert(iv.take(i as int) =~= iv);
    let ghost g = |f: SignatureFileView| SignatureChainView { fullsig: f, incsigs: Seq::empty() };
    assert(full_sigs(iv).map_values(g) =~= fresh_sig_chains(full_sigs(iv)));
    let mut sig_chains = stable_sort_by_time(sig_chains);
    let sorted = stable_sort_by_time(new_sig);
    let ghost start = sort_by_key(fresh_sig_chains(full_sigs(iv)), key_fn::<SignatureChain>());
    let ghost fs = sort_by_key(new_sigs(iv), key_fn::<FileNameInfo>());
    proof {
        assert(fs.take(0) =~= Seq::<(Seq<char>, Info)>::empty());
    }
    let mut k: usize = 0;
    while k < sorted.len()
        invariant
            k <= sorted.len(),
            views(sorted@) == fs,
            views(sig_chains@) == offer_sigs(start, fs.take(k as int)),
        decreases sorted.len() - k,
    {
        let sig = sorted[k];
        let mut added = false;
        let mut j: usize = 0;
        let ghost before = views(sig_chains@);
        assert(fs[k as int] == sig@) by {
            assert(views(sorted@)[k as int] == sorted@[k as int]@);
        }
        while j < sig_chains.len() && !added
            invariant
                j <= sig_chains.len(),
                sig_chains@.len() == before.len(),
                !added ==> views(sig_chains@) == before,
                !added ==> first_taker_from(before, sig@, 0) == first_taker_from(before, sig@, j as int),
                added ==> 0 < j && first_taker_from(before, sig@, 0) == Some(j - 1),
                added ==> views(sig_chains@) == before.update(
                    j - 1,
                    spec_add_new_sig(before[j - 1], sig@)->0,
                ),
            decreases sig_chains.len() - j,
        {
            let ghost bj = views(sig_chains@)[j as int];
            let mut c = sig_chains.remove(j);
            assert(c@ == before[j as int]);
            added = c.add_new_sig(&sig);
            let ghost cv = c@;
            sig_chains.insert(j, c);
            proof {
                if added {
                    assert(views(sig_chains@) =~= before.update(j as int, cv));
                } else {
                    assert(views(sig_chains@) =~= before);
                }
            }
            j = j + 1;
        }
        proof {
            assert(fs.take(k + 1).drop_last() =~= fs.take(k as int));
            assert(fs.take(k + 1).last() == sig@);
            if !added {
                assert(first_taker_from(before, sig@, j as int) is None);
            }
        }
        k = k + 1;
    }
    proof {
        crate::sort::lemma_sort_by_key_sorted(new_sigs(iv), key_fn::<FileNameInfo>());
        assert(fs.take(k as int) =~= fs);
    }
    sig_chains
}

/// Offering signatures keeps the number of chains and their full
/// signatures.
proof fn lemma_offer_sigs_fullsigs(cs: Seq<SignatureChainView>, fs: Seq<(Seq<char>, Info)>)
    ensures
        offer_sigs(cs, fs).len() == cs.len(),
        forall|i: int| 0 <= i < cs.len() ==> (#[trigger] offer_sigs(cs, fs)[i]).fullsig == cs[i].fullsig,
    decreases fs.len(),
{
    if fs.len() > 0 {
        lemma_offer_sigs_fullsigs(cs, fs.drop_last());
        let prev = offer_sigs(cs, fs.drop_last());
        match first_taker_from(prev, fs.last(), 0) {
            Some(j) => {
                lemma_first_taker_range(prev, fs.last(), 0);
                assert forall|i: int| 0 <= i < cs.len() implies (#[trigger] offer_sigs(cs, fs)[i]).fullsig
                    == cs[i].fullsig by {
                    assert(prev[i].fullsig == cs[i].fullsig);
                }
            },
            None => {},
        }
    }
}

/// The first chain that takes a file is one of the chains, from `j` on.
proof fn lemma_first_taker_range(cs: Seq<SignatureChainView>, f: (Seq<char>, Info), j: int)
    ensures
        first_taker_from(cs, f, j) matches Some(k) ==> j <= k < cs.len() && spec_add_new_sig(cs[k], f) is Some,
    decreases cs.len() - j,
{
    if 0 <= j < cs.len() && spec_add_new_sig(cs[j], f) is None {
        lemma_first_taker_range(cs, f, j + 1);
    }
}

/// The incremental signatures among the files are all incremental, and so
/// are they once sorted.
proof fn lemma_new_sigs_are_new(infos: Seq<(Seq<char>, Info)>)
    ensures
        forall|m: int| 0 <= m < new_sigs(infos).len() ==> (#[trigger] new_sigs(infos)[m]).1.tp is NewSig,
        forall|m: int|
            0 <= m < sort_by_key(new_sigs(infos), key_fn::<FileNameInfo>()).len() ==> (
            #[trigger] sort_by_key(new_sigs(infos), key_fn::<FileNameInfo>())[m]).1.tp is NewSig,
    decreases infos.len(),
{
    if infos.len() > 0 {
        lemma_new_sigs_are_new(infos.drop_last());
    }
    let ns = new_sigs(infos);
    let ss = sort_by_key(ns, key_fn::<FileNameInfo>());
    crate::sort::lemma_sort_by_key_sorted(ns, key_fn::<FileNameInfo>());
    assert forall|m: int| 0 <= m < ss.len() implies (#[trigger] ss[m]).1.tp is NewSig by {
        assert(ss.to_multiset().count(ss[m]) > 0) by {
            ss.to_multiset_ensures();
            assert(ss.contains(ss[m]));
        }
        ns.to_multiset_ensures();
        let w = choose|w: int| 0 <= w < ns.len() && ns[w] == ss[m];
    }
}

/// Adding an incremental set keeps a chain well formed.
proof fn lemma_add_inc_wf(c: BackupChainView, s: BackupSetView)
    requires
        chain_wf(c),
    ensures
        chain_wf(spec_add_inc(c, s).0),
{
    let r = spec_add_inc(c, s).0;
    if s.tp is Inc {
        if c.end_time == s.tp.spec_start_time() {
            assert forall|i: int| 0 < i < r.incsets.len() implies #[trigger] r.incsets[i].tp.spec_start_time()
                == r.incsets[i - 1].tp.spec_end_time() by {
                if i < c.incsets.len() {
                    assert(r.incsets[i] == c.incsets[i]);
                    assert(r.incsets[i - 1] == c.incsets[i - 1]);
                }
            }
            assert forall|i: int| 0 <= i < r.incsets.len() implies #[trigger] r.incsets[i].tp is Inc by {
                if i < c.incsets.len() {
                    assert(r.incsets[i] == c.incsets[i]);
                }
            }
        } else if c.incsets.len() > 0 && s.tp.spec_start_time() == c.incsets.last().tp.spec_start_time() && ts_lt(
            c.incsets.last().tp.spec_end_time(),
            s.tp.spec_end_time(),
        ) {
            let n = c.incsets.len();
            assert forall|i: int| 0 < i < r.incsets.len() implies #[trigger] r.incsets[i].tp.spec_start_time()
                == r.incsets[i - 1].tp.spec_end_time() by {
                if i < n - 1 {
                    assert(r.incsets[i] == c.incsets[i]);
                }
                assert(r.incsets[i - 1] == c.incsets[i - 1]);
            }
            assert forall|i: int| 0 <= i < r.incsets.len() implies #[trigger] r.incsets[i].tp is Inc by {
                if i < n - 1 {
                    assert(r.incsets[i] == c.incsets[i]);
                }
            }
        }
    }
}

proof fn lemma_first_taking_chain(chains: Seq<BackupChainView>, s: BackupSetView)
    ensures
        first_taking_chain(chains, s) matches Some(i) ==> 0 <= i < chains.len(),
    decreases chains.len(),
{
    if chains.len() > 0 {
        lemma_first_taking_chain(chains.drop_first(), s);
    }
}

/// The chains that sets form are well formed.
proof fn lemma_build_chains_wf(sets: Seq<BackupSetView>)
    ensures
        forall|i: int| 0 <= i < build_chains(sets).len() ==> chain_wf(#[trigger] build_chains(sets)[i]),
    decreases sets.len(),
{
    if sets.len() > 0 {
        lemma_build_chains_wf(sets.drop_last());
        let chains = build_chains(sets.drop_last());
        let s = sets.last();
        if !(s.tp is Full) {
            lemma_first_taking_chain(chains, s);
            match first_taking_chain(chains, s) {
                Some(k) => {
                    lemma_add_inc_wf(chains[k], s);
                },
                None => {},
            }
        }
    }
}

/// Every backup chain that file names give is well formed: a full set,
/// then incremental sets each starting where the previous one ended.
pub proof fn law_backup_chains_wf(names: Seq<Seq<char>>)
    ensures
        forall|i: int|
            0 <= i < spec_collections(names).backup_chains.len() ==> chain_wf(
                #[trigger] spec_collections(names).backup_chains[i],
            ),
{
    let infos = filename_infos(names);
    let built = build_chains(spec_backup_sets(infos));
    lemma_build_chains_wf(spec_backup_sets(infos));
    crate::sort::lemma_sort_by_key_sorted(built, key_fn::<BackupChain>());
    let sorted = sort_by_key(built, key_fn::<BackupChain>());
    assert forall|i: int| 0 <= i < sorted.len() implies chain_wf(#[trigger] sorted[i]) by {
        sorted.to_multiset_ensures();
        built.to_multiset_ensures();
        assert(sorted.contains(sorted[i]));
        assert(sorted.to_multiset().count(sorted[i]) > 0);
        assert(built.to_multiset().count(sorted[i]) > 0);
        assert(built.contains(sorted[i]));
        let j = choose|j: int| 0 <= j < built.len() && built[j] == sorted[i];
        assert(chain_wf(built[j]));
    }
}

/// The backup chains that file names give come in order of end time.
pub proof fn law_backup_chains_sorted(names: Seq<Seq<char>>)
    ensures
        forall|i: int, j: int|
            0 <= i < j < spec_collections(names).backup_chains.len() ==> ts_le(
                #[trigger] spec_collections(names).backup_chains[i].end_time,
                #[trigger] spec_collections(names).backup_chains[j].end_time,
            ),
{
    let infos = filename_infos(names);
    let built = build_chains(spec_backup_sets(infos));
    crate::sort::lemma_sort_by_key_sorted(built, key_fn::<BackupChain>());
}

/// There is one signature chain for each full signature file, and the
/// chains come in chronological order of their full signatures, so that
/// they pair with the backup chains.
pub proof fn law_signature_chains_sorted(names: Seq<Seq<char>>)
    ensures
        spec_collections(names).sig_chains.len() == full_sigs(filename_infos(names)).len(),
        forall|i: int, j: int|
            0 <= i < j < spec_collections(names).sig_chains.len() ==> ts_le(
                (#[trigger] spec_collections(names).sig_chains[i]).fullsig.time,
                (#[trigger] spec_collections(names).sig_chains[j]).fullsig.time,
            ),
{
    let infos = filename_infos(names);
    let start = sort_by_key(fresh_sig_chains(full_sigs(infos)), key_fn::<SignatureChain>());
    crate::sort::lemma_sort_by_key_sorted(fresh_sig_chains(full_sigs(infos)), key_fn::<SignatureChain>());
    let fs = sort_by_key(new_sigs(infos), key_fn::<FileNameInfo>());
    lemma_offer_sigs_fullsigs(start, fs);
}

/// The set after the files are offered to it one after the other: those
/// of the set are added, the others left out.
pub open spec fn add_files(v: BackupSetView, fs: Seq<(Seq<char>, Info)>) -> BackupSetView
    decreases fs.len(),
{
    if fs.len() == 0 {
        v
    } else {
        let w = add_files(v, fs.drop_last());
        if same_set(w.tp, fs.last().1.tp) {
            add_file(w, fs.last().0, fs.last().1)
        } else {
            w
        }
    }
}

/// The file is a manifest.
pub open spec fn is_manifest(t: fnm::Type) -> bool {
    t is FullManifest || t is IncManifest
}

/// The file is volume `n` of a full or incremental backup.
pub open spec fn is_volume(t: fnm::Type, n: i32) -> bool {
    match t {
        fnm::Type::Full { volume_number, .. } | fnm::Type::Inc { volume_number, .. } => volume_number == n,
        _ => false,
    }
}

/// A file belongs to the set that a file of type `t0` starts.
pub open spec fn joins(t0: fnm::Type, f: (Seq<char>, Info)) -> bool {
    same_set(set_type_of(t0), f.1.tp)
}

/// A set started by a file and offered more files keeps the kind and times
/// of the first file, whether it is partial and compressed; a full set
/// starts and ends at the same time.
pub proof fn law_set_keeps_kind(n0: Seq<char>, i0: Info, fs: Seq<(Seq<char>, Info)>)
    ensures
        add_files(new_set(n0, i0), fs).tp == set_type_of(i0.tp),
        add_files(new_set(n0, i0), fs).partial == partial_of(i0.tp),
        add_files(new_set(n0, i0), fs).compressed == i0.compressed,
        (add_files(new_set(n0, i0), fs).tp is Full) == (i0.tp is Full || i0.tp is FullManifest
            || i0.tp is FullSig),
        add_files(new_set(n0, i0), fs).tp is Full ==> add_files(new_set(n0, i0), fs).tp.spec_start_time()
            == add_files(new_set(n0, i0), fs).tp.spec_end_time(),
    decreases fs.len(),
{
    if fs.len() > 0 {
        law_set_keeps_kind(n0, i0, fs.drop_last());
    }
}

/// The files that a set started by `(n0, i0)` is offered, that one first.
pub open spec fn set_files(n0: Seq<char>, i0: Info, fs: Seq<(Seq<char>, Info)>) -> Seq<(Seq<char>, Info)> {
    seq![(n0, i0)] + fs
}

/// File `k` is the last manifest that joins.
pub open spec fn last_manifest_at(t0: fnm::Type, all: Seq<(Seq<char>, Info)>, k: int) -> bool {
    &&& 0 <= k < all.len()
    &&& joins(t0, all[k]) && is_manifest(all[k].1.tp)
    &&& forall|j: int| k < j < all.len() ==> !(joins(t0, #[trigger] all[j]) && is_manifest(all[j].1.tp))
}

/// File `k` is the last file of volume `n` that joins.
pub open spec fn last_volume_at(t0: fnm::Type, all: Seq<(Seq<char>, Info)>, n: i32, k: int) -> bool {
    &&& 0 <= k < all.len()
    &&& joins(t0, all[k]) && is_volume(all[k].1.tp, n)
    &&& forall|j: int| k < j < all.len() ==> !(joins(t0, #[trigger] all[j]) && is_volume(all[j].1.tp, n))
}

/// The manifest of a set started by a file and offered more files is the
/// name of the last manifest among the first file and those that join it,
/// and there is none when none is a manifest: the set is complete exactly
/// when a manifest with a name joined last.
pub proof fn law_set_manifest(n0: Seq<char>, i0: Info, fs: Seq<(Seq<char>, Info)>)
    ensures
        (forall|k: int| 0 <= k < set_files(n0, i0, fs).len() ==> !(joins(i0.tp, #[trigger] set_files(n0, i0, fs)[k])
            && is_manifest(set_files(n0, i0, fs)[k].1.tp))) ==> add_files(new_set(n0, i0), fs).manifest_path
            == Seq::<char>::empty(),
        forall|k: int| #[trigger] last_manifest_at(i0.tp, set_files(n0, i0, fs), k)
            ==> add_files(new_set(n0, i0), fs).manifest_path == set_files(n0, i0, fs)[k].0,
    decreases fs.len(),
{
    let all = set_files(n0, i0, fs);
    let s = add_files(new_set(n0, i0), fs);
    law_set_keeps_kind(n0, i0, fs);
    assert(all[0] == (n0, i0));
    if fs.len() == 0 {
        assert forall|k: int| #[trigger] last_manifest_at(i0.tp, all, k) implies s.manifest_path == all[k].0 by {
            assert(k == 0);
        }
    } else {
        let fp = fs.drop_last();
        law_set_manifest(n0, i0, fp);
        law_set_keeps_kind(n0, i0, fp);
        let w = add_files(new_set(n0, i0), fp);
        let ap = set_files(n0, i0, fp);
        let m = all.len() - 1;
        assert(all[m] == fs.last());
        assert forall|k: int| 0 <= k < ap.len() implies #[trigger] all[k] == ap[k] by {}
        if joins(i0.tp, all[m]) && is_manifest(all[m].1.tp) {
            assert forall|k: int| #[trigger] last_manifest_at(i0.tp, all, k) implies s.manifest_path == all[k].0 by {
                if k < m {
                    assert(!(joins(i0.tp, all[m]) && is_manifest(all[m].1.tp)));
                }
            }
        } else {
            assert(s.manifest_path == w.manifest_path);
            assert forall|k: int| #[trigger] last_manifest_at(i0.tp, all, k) implies s.manifest_path == all[k].0 by {
                assert(k < m);
                assert forall|j: int| k < j < ap.len() implies !(joins(i0.tp, #[trigger] ap[j]) && is_manifest(ap[j].1.tp)) by {
                    assert(ap[j] == all[j]);
                }
                assert(last_manifest_at(i0.tp, ap, k));
            }
            if forall|k: int| 0 <= k < all.len() ==> !(joins(i0.tp, #[trigger] all[k]) && is_manifest(all[k].1.tp)) {
                assert forall|k: int| 0 <= k < ap.len() implies !(joins(i0.tp, #[trigger] ap[k]) && is_manifest(ap[k].1.tp)) by {
                    assert(ap[k] == all[k]);
                }
            }
        }
    }
}

/// Volume `n` of a set started by a file and offered more files is the
/// name of the last file of volume `n` among the first file and those that
/// join it, and it is absent when there is none.
pub proof fn law_set_volumes(n0: Seq<char>, i0: Info, fs: Seq<(Seq<char>, Info)>, n: i32)
    ensures
        (forall|k: int| 0 <= k < set_files(n0, i0, fs).len() ==> !(joins(i0.tp, #[trigger] set_files(n0, i0, fs)[k])
            && is_volume(set_files(n0, i0, fs)[k].1.tp, n))) ==> !add_files(new_set(n0, i0), fs).volumes.contains_key(n),
        forall|k: int| #[trigger] last_volume_at(i0.tp, set_files(n0, i0, fs), n, k)
            ==> add_files(new_set(n0, i0), fs).volumes.contains_key(n) && add_files(new_set(n0, i0), fs).volumes[n]
            == set_files(n0, i0, fs)[k].0,
    decreases fs.len(),
{
    let all = set_files(n0, i0, fs);
    let s = add_files(new_set(n0, i0), fs);
    law_set_keeps_kind(n0, i0, fs);
    assert(all[0] == (n0, i0));
    if fs.len() == 0 {
        assert forall|k: int| #[trigger] last_volume_at(i0.tp, all, n, k) implies s.volumes.contains_key(n)
            && s.volumes[n] == all[k].0 by {
            assert(k == 0);
        }
        if forall|k: int| 0 <= k < all.len() ==> !(joins(i0.tp, #[trigger] all[k]) && is_volume(all[k].1.tp, n)) {
            assert(!(joins(i0.tp, all[0]) && is_volume(all[0].1.tp, n)));
        }
    } else {
        let fp = fs.drop_last();
        law_set_volumes(n0, i0, fp, n);
        law_set_keeps_kind(n0, i0, fp);
        let w = add_files(new_set(n0, i0), fp);
        let ap = set_files(n0, i0, fp);
        let m = all.len() - 1;
        assert(all[m] == fs.last());
        assert forall|k: int| 0 <= k < ap.len() implies #[trigger] all[k] == ap[k] by {}
        if forall|k: int| 0 <= k < all.len() ==> !(joins(i0.tp, #[trigger] all[k]) && is_volume(all[k].1.tp, n)) {
            assert forall|k: int| 0 <= k < ap.len() implies !(joins(i0.tp, #[trigger] ap[k]) && is_volume(ap[k].1.tp, n)) by {
                assert(ap[k] == all[k]);
            }
            assert(!(joins(i0.tp, all[m]) && is_volume(all[m].1.tp, n)));
        }
        assert forall|k: int| #[trigger] last_volume_at(i0.tp, all, n, k) implies s.volumes.contains_key(n)
            && s.volumes[n] == all[k].0 by {
            if k < m {
                assert(!(joins(i0.tp, all[m]) && is_volume(all[m].1.tp, n)));
                assert forall|j: int| k < j < ap.len() implies !(joins(i0.tp, #[trigger] ap[j]) && is_volume(ap[j].1.tp, n)) by {
                    assert(ap[j] == all[j]);
                }
                assert(last_volume_at(i0.tp, ap, n, k));
            }
        }
    }
}

/// A set started by a file and offered more files is encrypted exactly when
/// the first file is, or when the set is partial and a file that joins it
/// is: a set never stops being encrypted, and only a partial one becomes
/// so later.
pub proof fn law_set_encrypted(n0: Seq<char>, i0: Info, fs: Seq<(Seq<char>, Info)>)
    ensures
        add_files(new_set(n0, i0), fs).encrypted == (i0.encrypted || (partial_of(i0.tp) && exists|k: int|
            0 <= k < set_files(n0, i0, fs).len() && joins(i0.tp, #[trigger] set_files(n0, i0, fs)[k])
                && set_files(n0, i0, fs)[k].1.encrypted)),
    decreases fs.len(),
{
    let all = set_files(n0, i0, fs);
    let s = add_files(new_set(n0, i0), fs);
    law_set_keeps_kind(n0, i0, fs);
    assert(all[0] == (n0, i0));
    let e = exists|k: int| 0 <= k < all.len() && joins(i0.tp, #[trigger] all[k]) && all[k].1.encrypted;
    if fs.len() == 0 {
        if e {
            let k = choose|k: int| 0 <= k < all.len() && joins(i0.tp, #[trigger] all[k]) && all[k].1.encrypted;
            assert(k == 0);
        }
    } else {
        let fp = fs.drop_last();
        law_set_encrypted(n0, i0, fp);
        law_set_keeps_kind(n0, i0, fp);
        let ap = set_files(n0, i0, fp);
        let m = all.len() - 1;
        assert(all[m] == fs.last());
        assert forall|k: int| 0 <= k < ap.len() implies #[trigger] all[k] == ap[k] by {}
        let ep = exists|k: int| 0 <= k < ap.len() && joins(i0.tp, #[trigger] ap[k]) && ap[k].1.encrypted;
        if ep {
            let k = choose|k: int| 0 <= k < ap.len() && joins(i0.tp, #[trigger] ap[k]) && ap[k].1.encrypted;
            assert(all[k] == ap[k]);
            assert(e);
        }
        if e && !(joins(i0.tp, all[m]) && all[m].1.encrypted) {
            let k = choose|k: int| 0 <= k < all.len() && joins(i0.tp, #[trigger] all[k]) && all[k].1.encrypted;
            assert(k < m);
            assert(ap[k] == all[k]);
            assert(ep);
        }
        if joins(i0.tp, all[m]) && all[m].1.encrypted {
            assert(e);
        }
    }
}

/// The sets that a sequence of calls goes through: `BackupSet::new` on the
/// first file, then `add_filename` on each of the others, which answers
/// `results[i]` (as their contracts say).
pub open spec fn set_calls(
    n0: Seq<char>,
    i0: Info,
    fs: Seq<(Seq<char>, Info)>,
    states: Seq<BackupSetView>,
    results: Seq<bool>,
) -> bool {
    &&& states.len() == fs.len() + 1
    &&& results.len() == fs.len()
    &&& states[0] == new_set(n0, i0)
    &&& forall|i: int|
        0 <= i < fs.len() ==> {
            &&& #[trigger] results[i] == same_set(states[i].tp, fs[i].1.tp)
            &&& results[i] ==> states[i + 1] == add_file(states[i], fs[i].0, fs[i].1)
            &&& !results[i] ==> states[i + 1] == states[i]
        }
}

/// After `BackupSet::new` on a first file and `add_filename` on others, the
/// set is `add_files` of them, a call answers true exactly for a file that
/// joins the first, and so (see `law_set_keeps_kind`, `law_set_manifest`,
/// `law_set_volumes`, `law_set_encrypted`): the set keeps the kind and
/// times of the first file, a full set starts and ends together; it is
/// complete exactly when the last manifest taken has a name, that name
/// being its manifest; its volume `n` is the last file of volume `n`
/// taken; and it is encrypted exactly when the first file is, or when it
/// is partial and a file taken is.
pub proof fn law_set_calls(
    n0: Seq<char>,
    i0: Info,
    fs: Seq<(Seq<char>, Info)>,
    states: Seq<BackupSetView>,
    results: Seq<bool>,
)
    requires
        set_calls(n0, i0, fs, states, results),
    ensures
        states.last() == add_files(new_set(n0, i0), fs),
        forall|i: int| 0 <= i < fs.len() ==> #[trigger] results[i] == joins(i0.tp, fs[i]),
        states.last().tp == set_type_of(i0.tp),
        states.last().tp is Full ==> states.last().tp.spec_start_time() == states.last().tp.spec_end_time(),
        (forall|k: int| 0 <= k < set_files(n0, i0, fs).len() ==> !(joins(i0.tp, #[trigger] set_files(n0, i0, fs)[k])
            && is_manifest(set_files(n0, i0, fs)[k].1.tp))) ==> states.last().manifest_path.len() == 0,
        forall|k: int| #[trigger] last_manifest_at(i0.tp, set_files(n0, i0, fs), k)
            ==> states.last().manifest_path == set_files(n0, i0, fs)[k].0,
        forall|n: i32, k: int| #[trigger] last_volume_at(i0.tp, set_files(n0, i0, fs), n, k)
            ==> states.last().volumes.contains_key(n) && states.last().volumes[n] == set_files(n0, i0, fs)[k].0,
        states.last().encrypted == (i0.encrypted || (partial_of(i0.tp) && exists|i: int|
            0 <= i < fs.len() && #[trigger] results[i] && fs[i].1.encrypted)),
    decreases fs.len(),
{
    let sl = states.last();
    if fs.len() > 0 {
        let fp = fs.drop_last();
        let sp = states.drop_last();
        let rp = results.drop_last();
        assert forall|i: int| 0 <= i < fp.len() implies {
            &&& #[trigger] rp[i] == same_set(sp[i].tp, fp[i].1.tp)
            &&& rp[i] ==> sp[i + 1] == add_file(sp[i], fp[i].0, fp[i].1)
            &&& !rp[i] ==> sp[i + 1] == sp[i]
        } by {
            assert(results[i] == same_set(states[i].tp, fs[i].1.tp));
        }
        law_set_calls(n0, i0, fp, sp, rp);
        law_set_keeps_kind(n0, i0, fp);
        let m = fs.len() - 1;
        assert(results[m] == same_set(states[m].tp, fs[m].1.tp));
        assert(sp.last() == states[m]);
        assert forall|i: int| 0 <= i < fs.len() implies #[trigger] results[i] == joins(i0.tp, fs[i]) by {
            if i < m {
                assert(rp[i] == results[i]);
                assert(fp[i] == fs[i]);
            }
        }
    }
    law_set_keeps_kind(n0, i0, fs);
    law_set_manifest(n0, i0, fs);
    law_set_encrypted(n0, i0, fs);
    assert forall|n: i32, k: int| #[trigger] last_volume_at(i0.tp, set_files(n0, i0, fs), n, k)
        implies states.last().volumes.contains_key(n) && states.last().volumes[n] == set_files(n0, i0, fs)[k].0 by {
        law_set_volumes(n0, i0, fs, n);
    }
    let all = set_files(n0, i0, fs);
    assert(all[0] == (n0, i0));
    let e1 = exists|k: int| 0 <= k < all.len() && joins(i0.tp, #[trigger] all[k]) && all[k].1.encrypted;
    let e2 = exists|i: int| 0 <= i < fs.len() && #[trigger] results[i] && fs[i].1.encrypted;
    if e1 && !i0.encrypted {
        let k = choose|k: int| 0 <= k < all.len() && joins(i0.tp, #[trigger] all[k]) && all[k].1.encrypted;
        assert(k > 0);
        assert(all[k] == fs[k - 1]);
        assert(results[k - 1]);
    }
    if e2 {
        let i = choose|i: int| 0 <= i < fs.len() && #[trigger] results[i] && fs[i].1.encrypted;
        assert(all[i + 1] == fs[i]);
        assert(joins(i0.tp, all[i + 1]));
    }
}

/// The chains that a sequence of calls goes through: `BackupChain::new` on
/// a full set, then `add_inc` on each set (as their contracts say).
pub open spec fn chain_calls(f: BackupSetView, sets: Seq<BackupSetView>, states: Seq<BackupChainView>) -> bool {
    &&& states.len() == sets.len() + 1
    &&& states[0] == new_chain(f)
    &&& forall|i: int| 0 <= i < sets.len() ==> #[trigger] states[i + 1] == spec_add_inc(states[i], sets[i]).0
}

/// After `BackupChain::new` on a full set and `add_inc` on other sets,
/// every chain on the way is well formed (its incremental sets follow each
/// other, the first starting where the full set ends, and the chain ends
/// with the last), keeps the full set and its start time, and, when every
/// set offered ends no earlier than it starts, no call makes it end
/// earlier.
pub proof fn law_chain_calls(f: BackupSetView, sets: Seq<BackupSetView>, states: Seq<BackupChainView>)
    requires
        f.tp is Full,
        chain_calls(f, sets, states),
    ensures
        forall|i: int| 0 <= i < states.len() ==> #[trigger] states[i] == add_incs(new_chain(f), sets.take(i)),
        forall|i: int| 0 <= i < states.len() ==> chain_wf(#[trigger] states[i]),
        forall|i: int| 0 <= i < states.len() ==> (#[trigger] states[i]).fullset == f && states[i].start_time
            == f.tp.spec_end_time(),
        (forall|i: int| 0 <= i < sets.len() ==> ts_le(
            (#[trigger] sets[i]).tp.spec_start_time(),
            sets[i].tp.spec_end_time(),
        )) ==> forall|i: int| 0 <= i < sets.len() ==> ts_le(
            (#[trigger] states[i]).end_time,
            states[i + 1].end_time,
        ),
{
    assert forall|i: int| 0 <= i < states.len() implies #[trigger] states[i] == add_incs(new_chain(f), sets.take(i)) by {
        lemma_chain_calls_prefix(f, sets, states, i);
    }
    assert forall|i: int| 0 <= i < states.len() implies chain_wf(#[trigger] states[i]) && states[i].fullset == f
        && states[i].start_time == f.tp.spec_end_time() by {
        lemma_chain_calls_prefix(f, sets, states, i);
        law_chain_grows(f, sets.take(i));
    }
    if forall|i: int| 0 <= i < sets.len() ==> ts_le(
        (#[trigger] sets[i]).tp.spec_start_time(),
        sets[i].tp.spec_end_time(),
    ) {
        assert forall|i: int| 0 <= i < sets.len() implies ts_le(
            (#[trigger] states[i]).end_time,
            states[i + 1].end_time,
        ) by {
            lemma_chain_calls_prefix(f, sets, states, i);
            lemma_chain_calls_prefix(f, sets, states, i + 1);
            let t = sets.take(i + 1);
            assert(t.drop_last() =~= sets.take(i));
            assert forall|j: int| 0 <= j < t.len() implies ts_le(
                (#[trigger] t[j]).tp.spec_start_time(),
                t[j].tp.spec_end_time(),
            ) by {
                assert(t[j] == sets[j]);
            }
            law_chain_grows(f, t);
        }
    }
}

/// The chain after `i` calls is the chain of the first `i` sets.
proof fn lemma_chain_calls_prefix(f: BackupSetView, sets: Seq<BackupSetView>, states: Seq<BackupChainView>, i: int)
    requires
        chain_calls(f, sets, states),
        0 <= i < states.len(),
    ensures
        states[i] == add_incs(new_chain(f), sets.take(i)),
    decreases i,
{
    if i == 0 {
        assert(sets.take(0) =~= Seq::<BackupSetView>::empty());
    } else {
        lemma_chain_calls_prefix(f, sets, states, i - 1);
        assert(sets.take(i).drop_last() =~= sets.take(i - 1));
        assert(sets.take(i).last() == sets[i - 1]);
        assert(states[(i - 1) + 1] == spec_add_inc(states[i - 1], sets[i - 1]).0);
    }
}

/// The incremental sets added one after the other to a chain.
pub open spec fn add_incs(c: BackupChainView, sets: Seq<BackupSetView>) -> BackupChainView
    decreases sets.len(),
{
    if sets.len() == 0 {
        c
    } else {
        spec_add_inc(add_incs(c, sets.drop_last()), sets.last()).0
    }
}

/// A chain started by a full set and offered incremental sets stays well
/// formed (its incremental sets follow each other, the first starting where
/// the full set ends, and the chain ends with the last), keeps its full set
/// and start time, and, when every set offered ends no earlier than it
/// starts, never ends earlier than it did.
pub proof fn law_chain_grows(f: BackupSetView, sets: Seq<BackupSetView>)
    requires
        f.tp is Full,
    ensures
        chain_wf(add_incs(new_chain(f), sets)),
        add_incs(new_chain(f), sets).fullset == f,
        add_incs(new_chain(f), sets).start_time == f.tp.spec_end_time(),
        (forall|i: int| 0 <= i < sets.len() ==> ts_le(
            (#[trigger] sets[i]).tp.spec_start_time(),
            sets[i].tp.spec_end_time(),
        )) ==> ts_le(
            add_incs(new_chain(f), sets.drop_last()).end_time,
            add_incs(new_chain(f), sets).end_time,
        ) || sets.len() == 0,
        (forall|i: int| 0 <= i < sets.len() ==> ts_le(
            (#[trigger] sets[i]).tp.spec_start_time(),
            sets[i].tp.spec_end_time(),
        )) ==> ts_le(f.tp.spec_end_time(), add_incs(new_chain(f), sets).end_time),
    decreases sets.len(),
{
    let c0 = new_chain(f);
    assert(c0.incsets =~= Seq::<BackupSetView>::empty());
    if sets.len() > 0 {
        let sp = sets.drop_last();
        law_chain_grows(f, sp);
        let c = add_incs(c0, sp);
        lemma_add_inc_wf(c, sets.last());
        if forall|i: int| 0 <= i < sets.len() ==> ts_le(
            (#[trigger] sets[i]).tp.spec_start_time(),
            sets[i].tp.spec_end_time(),
        ) {
            assert forall|i: int| 0 <= i < sp.len() implies ts_le(
                (#[trigger] sp[i]).tp.spec_start_time(),
                sp[i].tp.spec_end_time(),
            ) by {
                assert(sp[i] == sets[i]);
            }
            let s = sets.last();
            assert(ts_le(s.tp.spec_start_time(), s.tp.spec_end_time()));
        }
    }
}

/// A backup set is either full or incremental.
pub proof fn law_full_or_incremental(s: BackupSetView)
    ensures
        (s.tp is Full) != (s.tp is Inc),
{
}

} // verus!
