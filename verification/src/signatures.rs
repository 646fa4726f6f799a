//! Operations on backup signatures.
//!
//! The signature files of a backup chain tell which paths each snapshot
//! holds, with their metadata. A `Chain` gathers them: for each path, the
//! snapshots in which it was added, changed or deleted.

use vstd::prelude::*;
use crate::bytes::{Order3, bytes_eq};
use crate::rawpath::{RawPath, path_display_text, path_order, path_order_exec};
use crate::text::{decimal_string, decimal_text};
use crate::timefmt::{TimeDisplay, Timespec, local_clock_of, local_time_text_of, spec_pretty_text, ts_displayable};

verus! {

broadcast use vstd::std_specs::hash::group_hash_axioms;

/// Type of entry in a backup snapshot.
#[derive(Clone, Copy, Debug, PartialEq, Eq, Structural)]
pub enum EntryType {
    /// A regular file.
    File,
    /// A directory.
    Dir,
    /// An hard link (not produced by duplicity).
    HardLink,
    /// A symbolic link.
    SymLink,
    /// An unix pipe.
    Fifo,
    /// All the other entry types, that are currently not managed.
    Unknown(u8),
}

/// The entry type that a TAR type byte stands for.
pub open spec fn spec_entry_type(byte: u8) -> EntryType {
    if byte == 0 || byte == 48 {
        EntryType::File
    } else if byte == 53 {
        EntryType::Dir
    } else if byte == 49 {
        EntryType::HardLink
    } else if byte == 50 {
        EntryType::SymLink
    } else if byte == 54 {
        EntryType::Fifo
    } else {
        EntryType::Unknown(byte)
    }
}

impl EntryType {
    /// Creates an entry type from a raw byte, as the TAR format numbers
    /// them.
    pub fn new(byte: u8) -> (r: EntryType)
        ensures
            r == spec_entry_type(byte),
    {
        if byte == 0 || byte == 48 {
            EntryType::File
        } else if byte == 53 {
            EntryType::Dir
        } else if byte == 49 {
            EntryType::HardLink
        } else if byte == 50 {
            EntryType::SymLink
        } else if byte == 54 {
            EntryType::Fifo
        } else {
            EntryType::Unknown(byte)
        }
    }

    /// The character that shows the type, as `ls -l` does.
    pub fn as_char(&self) -> (r: char)
        ensures
            r == match *self {
                EntryType::File | EntryType::HardLink => '-',
                EntryType::Dir => 'd',
                EntryType::SymLink => 'l',
                EntryType::Fifo => 'p',
                EntryType::Unknown(_) => '?',
            },
    {
        match *self {
            EntryType::File | EntryType::HardLink => '-',
            EntryType::Dir => 'd',
            EntryType::SymLink => 'l',
            EntryType::Fifo => 'p',
            EntryType::Unknown(_) => '?',
        }
    }
}

/// The three letters of the permissions of one class of users (`i` is 2
/// for the owner, 1 for the group, 0 for the others), with the set-id and
/// sticky bits shown on the executable letter.
pub open spec fn perm_letters(mode: u32, i: u32) -> Seq<char> {
    let curr = mode >> (i * 3);
    let special = mode >> 9u32;
    let x = curr & 1u32 > 0;
    let sp = special & (1u32 << i) > 0;
    seq![
        if curr & 4u32 > 0 { 'r' } else { '-' },
        if curr & 2u32 > 0 { 'w' } else { '-' },
        if x && !sp {
            'x'
        } else if !x && !sp {
            '-'
        } else if x {
            if i == 0 { 't' } else { 's' }
        } else {
            if i == 0 { 'T' } else { 'S' }
        },
    ]
}

/// The permissions in the style of `ls -l`, or `?` when unknown.
pub open spec fn spec_mode_string(mode: Option<u32>) -> Seq<char> {
    match mode {
        Some(m) => perm_letters(m, 2) + perm_letters(m, 1) + perm_letters(m, 0),
        None => seq!['?'],
    }
}

/// Appends the letters of one class of users.
fn push_perm_letters(out: &mut String, mode: u32, i: u32)
    requires
        i < 3,
    ensures
        final(out)@ == old(out)@ + perm_letters(mode, i),
{
    let curr = mode >> (i * 3);
    let special = mode >> 9u32;
    let x = curr & 1u32 > 0;
    let sp = special & (1u32 << i) > 0;
    let r = if curr & 4u32 > 0 { "r" } else { "-" };
    let w = if curr & 2u32 > 0 { "w" } else { "-" };
    let e = if x && !sp {
        "x"
    } else if !x && !sp {
        "-"
    } else if x {
        if i == 0 { "t" } else { "s" }
    } else {
        if i == 0 { "T" } else { "S" }
    };
    proof {
        reveal_strlit("r");
        reveal_strlit("w");
        reveal_strlit("x");
        reveal_strlit("-");
        reveal_strlit("t");
        reveal_strlit("s");
        reveal_strlit("T");
        reveal_strlit("S");
    }
    out.append(r);
    out.append(w);
    out.append(e);
    assert(final(out)@ =~= old(out)@ + perm_letters(mode, i));
}

/// The permissions of a mode in the style of `ls -l`: `rwxr-xr-x`, with
/// `s`/`S` and `t`/`T` for the set-id and sticky bits; `?` when unknown.
pub fn mode_string(mode: Option<u32>) -> (r: String)
    ensures
        r@ == spec_mode_string(mode),
{
    match mode {
        Some(m) => {
            let mut out = String::new();
            push_perm_letters(&mut out, m, 2);
            push_perm_letters(&mut out, m, 1);
            push_perm_letters(&mut out, m, 0);
            assert(out@ =~= spec_mode_string(mode));
            out
        },
        None => {
            proof {
                reveal_strlit("?");
            }
            "?".to_owned()
        },
    }
}

/// The permissions of a mode as `ls -l` shows them (see `mode_string`).
pub fn _mode_display(mode: Option<u32>) -> (r: String)
    ensures
        r@ == spec_mode_string(mode),
{
    mode_string(mode)
}

/// Maps from user and group ids to their names.
#[derive(Debug)]
pub struct UserGroupMap {
    uid_map: std::collections::HashMap<u64, String>,
    gid_map: std::collections::HashMap<u64, String>,
}

/// The names of users and groups, by id.
pub struct UserGroupMapView {
    pub users: Map<u64, Seq<char>>,
    pub groups: Map<u64, Seq<char>>,
}

impl View for UserGroupMap {
    type V = UserGroupMapView;

    closed spec fn view(&self) -> UserGroupMapView {
        UserGroupMapView {
            users: self.uid_map@.map_values(|s: String| s@),
            groups: self.gid_map@.map_values(|s: String| s@),
        }
    }
}

impl UserGroupMap {
    /// A map with no names.
    pub fn new() -> (r: Self)
        ensures
            r@.users == Map::<u64, Seq<char>>::empty(),
            r@.groups == Map::<u64, Seq<char>>::empty(),
    {
        let r = UserGroupMap {
            uid_map: std::collections::HashMap::new(),
            gid_map: std::collections::HashMap::new(),
        };
        assert(r@.users =~= Map::<u64, Seq<char>>::empty());
        assert(r@.groups =~= Map::<u64, Seq<char>>::empty());
        r
    }

    /// Records the name of a user; true when the id was new.
    pub fn add_user(&mut self, uid: u64, name: String) -> (r: bool)
        ensures
            final(self)@.users == old(self)@.users.insert(uid, name@),
            final(self)@.groups == old(self)@.groups,
            r == !old(self)@.users.contains_key(uid),
    {
        let ghost nv = name@;
        let r = self.uid_map.insert(uid, name).is_none();
        assert(self@.users =~= old(self)@.users.insert(uid, nv));
        r
    }

    /// Records the name of a group; true when the id was new.
    pub fn add_group(&mut self, gid: u64, name: String) -> (r: bool)
        ensures
            final(self)@.groups == old(self)@.groups.insert(gid, name@),
            final(self)@.users == old(self)@.users,
            r == !old(self)@.groups.contains_key(gid),
    {
        let ghost nv = name@;
        let r = self.gid_map.insert(gid, name).is_none();
        assert(self@.groups =~= old(self)@.groups.insert(gid, nv));
        r
    }

    /// The name of a user, if known.
    pub fn get_user_name(&self, uid: u64) -> (r: Option<&str>)
        ensures
            match r {
                Some(n) => self@.users.contains_key(uid) && n@ == self@.users[uid],
                None => !self@.users.contains_key(uid),
            },
    {
        match self.uid_map.get(&uid) {
            Some(n) => Some(n.as_str()),
            None => None,
        }
    }

    /// The name of a group, if known.
    pub fn get_group_name(&self, gid: u64) -> (r: Option<&str>)
        ensures
            match r {
                Some(n) => self@.groups.contains_key(gid) && n@ == self@.groups[gid],
                None => !self@.groups.contains_key(gid),
            },
    {
        match self.gid_map.get(&gid) {
            Some(n) => Some(n.as_str()),
            None => None,
        }
    }
}

/// The kind of a path in a signature archive.
#[derive(Clone, Copy, Debug, PartialEq, Eq, Structural)]
pub enum DiffType {
    Signature,
    Snapshot,
    Deleted,
}

/// Leading separators and `.` components taken off.
pub open spec fn trim_left(b: Seq<u8>) -> Seq<u8>
    decreases b.len(),
{
    if b.len() > 0 && b[0] == 47 {
        trim_left(b.drop_first())
    } else if b == seq![46u8] {
        Seq::empty()
    } else if b.len() >= 2 && b[0] == 46 && b[1] == 47 {
        trim_left(b.drop_first())
    } else {
        b
    }
}

/// Trailing separators and `.` components taken off.
pub open spec fn trim_right(b: Seq<u8>) -> Seq<u8>
    decreases b.len(),
{
    if b.len() > 0 && b.last() == 47 {
        trim_right(b.drop_last())
    } else if b == seq![46u8] {
        Seq::empty()
    } else if b.len() >= 2 && b.last() == 46 && b[b.len() - 2] == 47 {
        trim_right(b.drop_last())
    } else {
        b
    }
}

/// The end of the first component of a path that does not start with a
/// separator.
pub open spec fn first_component_end(b: Seq<u8>) -> int {
    crate::bytes::first_index_of(b, 0, 47u8)
}

/// A path of a signature archive: its first component tells the kind
/// (`signature`, `snapshot` or `deleted`), the rest is the path in the
/// snapshot, without leading and trailing separators and `.` components.
pub open spec fn spec_parse_snapshot_path(b: Seq<u8>) -> Option<(DiffType, Seq<u8>)> {
    if b.len() == 0 || b[0] == 47 {
        None
    } else {
        let e = first_component_end(b);
        let first = b.subrange(0, e);
        let rest = trim_right(trim_left(b.subrange(e, b.len() as int)));
        if first == vstd::utf8::encode_utf8("signature"@) {
            Some((DiffType::Signature, rest))
        } else if first == vstd::utf8::encode_utf8("snapshot"@) {
            Some((DiffType::Snapshot, rest))
        } else if first == vstd::utf8::encode_utf8("deleted"@) {
            Some((DiffType::Deleted, rest))
        } else {
            None
        }
    }
}


/// Takes leading separators and `.` components off.
fn trim_left_exec(b: &[u8]) -> (r: &[u8])
    ensures
        r@ == trim_left(b@),
{
    let mut s = b;
    loop
        invariant
            trim_left(s@) == trim_left(b@),
        decreases s@.len(),
    {
        let n = s.len();
        if n > 0 && s[0] == 47 {
            assert(s@.drop_first() =~= s@.subrange(1, n as int));
            s = &s[1..n];
        } else if n == 1 && s[0] == 46 {
            assert(s@ =~= seq![46u8]);
            return &s[0..0];
        } else if n >= 2 && s[0] == 46 && s[1] == 47 {
            assert(s@.drop_first() =~= s@.subrange(1, n as int));
            s = &s[1..n];
        } else {
            proof {
                if s@ == seq![46u8] {
                    assert(s@[0] == 46u8);
                }
            }
            return s;
        }
    }
}

/// Takes trailing separators and `.` components off.
fn trim_right_exec(b: &[u8]) -> (r: &[u8])
    ensures
        r@ == trim_right(b@),
{
    let mut s = b;
    loop
        invariant
            trim_right(s@) == trim_right(b@),
        decreases s@.len(),
    {
        let n = s.len();
        if n > 0 && s[n - 1] == 47 {
            assert(s@.drop_last() =~= s@.subrange(0, n - 1));
            s = &s[0..n - 1];
        } else if n == 1 && s[0] == 46 {
            assert(s@ =~= seq![46u8]);
            return &s[0..0];
        } else if n >= 2 && s[n - 1] == 46 && s[n - 2] == 47 {
            assert(s@.drop_last() =~= s@.subrange(0, n - 1));
            s = &s[0..n - 1];
        } else {
            proof {
                if s@ == seq![46u8] {
                    assert(s@[0] == 46u8);
                }
            }
            return s;
        }
    }
}

/// Splits a path of a signature archive into its kind and the path in the
/// snapshot (see `spec_parse_snapshot_path`).
pub fn parse_snapshot_path(path: &[u8]) -> (r: Option<(DiffType, Vec<u8>)>)
    ensures
        match r {
            Some((t, p)) => spec_parse_snapshot_path(path@) == Some((t, p@)),
            None => spec_parse_snapshot_path(path@) is None,
        },
{
    let n = path.len();
    if n == 0 || path[0] == 47 {
        return None;
    }
    let mut e: usize = 0;
    while e < n && path[e] != 47
        invariant
            e <= n,
            n == path@.len(),
            forall|k: int| 0 <= k < e ==> path@[k] != 47u8,
        decreases n - e,
    {
        e = e + 1;
    }
    proof {
        crate::bytes::lemma_first_index_of(path@, 0, 47u8);
        let fe = first_component_end(path@);
        assert(fe == e) by {
            if fe < e {
                assert(path@[fe] == 47u8);
            }
        }
    }
    let first = &path[0..e];
    let rest = trim_right_exec(trim_left_exec(&path[e..n]));
    let t = if bytes_eq(first, "signature".as_bytes()) {
        DiffType::Signature
    } else if bytes_eq(first, "snapshot".as_bytes()) {
        DiffType::Snapshot
    } else if bytes_eq(first, "deleted".as_bytes()) {
        DiffType::Deleted
    } else {
        return None;
    };
    Some((t, crate::bytes::slice_to_vec(rest)))
}

/// The big-endian value of four bytes.
pub open spec fn be_u32(b0: u8, b1: u8, b2: u8, b3: u8) -> u32 {
    (b0 as int * 0x100_0000 + b1 as int * 0x1_0000 + b2 as int * 0x100 + b3 as int) as u32
}

/// Calls `<byteorder::BigEndian as byteorder::ByteOrder>::read_u32`, which
/// reads the first four bytes as a big-endian number (and panics on fewer
/// than four bytes).
#[verifier::external_body]
fn read_u32_be(buf: &[u8]) -> (r: u32)
    requires
        buf@.len() >= 4,
    ensures
        r == be_u32(buf@[0], buf@[1], buf@[2], buf@[3]),
{
    <byteorder::BigEndian as byteorder::ByteOrder>::read_u32(buf)
}

/// The magic number that starts an rdiff signature.
pub open spec fn signature_magic() -> u32 {
    0x72730136u32
}

/// What the header of an rdiff signature holds: the magic number, the
/// length of the file blocks and the length of the strong sums; `None`
/// when fewer than twelve bytes are there or the magic is wrong.
pub open spec fn signature_header(head: Seq<u8>) -> Option<(usize, usize)> {
    if head.len() < 4 || be_u32(head[0], head[1], head[2], head[3]) != signature_magic() {
        None
    } else if head.len() < 12 {
        None
    } else {
        Some(
            (
                be_u32(head[4], head[5], head[6], head[7]) as usize,
                be_u32(head[8], head[9], head[10], head[11]) as usize,
            ),
        )
    }
}

/// The computation of a size hint from a signature overflows: the
/// signature file is shorter than eight bytes, or the bound on the file
/// length does not fit in a `usize`.
pub open spec fn size_hint_overflows(head: Seq<u8>, size: Option<u64>) -> bool {
    match (signature_header(head), size) {
        (Some((fbl, ssl)), Some(sz)) => {
            let file_size = sz as usize;
            ||| 4 + ssl > usize::MAX
            ||| file_size < 8
            ||| fbl * ((file_size - 8) / (4 + ssl)) > usize::MAX
        },
        _ => false,
    }
}

/// The bounds on the length of a file that an rdiff signature describes:
/// its blocks times the block length, less up to one block.
pub open spec fn spec_size_hint_signature(head: Seq<u8>, size: Option<u64>) -> Option<(usize, usize)> {
    match (signature_header(head), size) {
        (Some((fbl, ssl)), Some(sz)) => {
            let file_size = sz as usize;
            let num_blocks = (file_size - 8) / (4 + ssl);
            let max_len = fbl * num_blocks;
            if max_len > fbl {
                Some(((max_len - fbl + 1) as usize, max_len as usize))
            } else {
                Some((0, max_len as usize))
            }
        },
        _ => None,
    }
}

/// Bounds on the length of a file, from its rdiff signature: `head` is the
/// start of the signature (up to twelve bytes), `size` the length of the
/// signature file.
pub fn compute_size_hint_signature(head: &[u8], size: Option<u64>) -> (r: Option<(usize, usize)>)
    requires
        !size_hint_overflows(head@, size),
    ensures
        r == spec_size_hint_signature(head@, size),
{
    if head.len() < 4 {
        return None;
    }
    let magic = read_u32_be(&head[0..4]);
    if magic != 0x72730136u32 {
        return None;
    }
    if head.len() < 12 {
        return None;
    }
    let fbl = read_u32_be(&head[4..8]) as usize;
    let ssl = read_u32_be(&head[8..12]) as usize;
    let sz = match size {
        Some(sz) => sz,
        None => {
            return None;
        },
    };
    let file_size = sz as usize;
    let sign_block_len = 4 + ssl;
    let num_blocks = (file_size - 8) / sign_block_len;
    let max_len = fbl * num_blocks;
    assert(fbl == 0 ==> max_len == 0) by (nonlinear_arith)
        requires
            max_len == fbl * num_blocks,
    ;
    if max_len > fbl {
        Some((max_len - fbl + 1, max_len))
    } else {
        Some((0, max_len))
    }
}


/// What a signature archive tells of one of its entries: the data of the
/// TAR entry that the chain reads.
pub struct SigTarEntry {
    /// The path of the entry.
    pub path: Vec<u8>,
    /// The path written in the entry's header, when it can be read.
    pub header_path: Option<Vec<u8>>,
    /// The modification time, in seconds.
    pub mtime: Option<u64>,
    pub uid: Option<u64>,
    pub gid: Option<u64>,
    pub username: Option<String>,
    pub groupname: Option<String>,
    pub mode: Option<u32>,
    /// The TAR type byte.
    pub entry_type: u8,
    /// The target of a link.
    pub link_name: Option<Vec<u8>>,
    /// The length of the entry's data.
    pub size: Option<u64>,
    /// The first bytes of the entry's data, up to twelve.
    pub head: Vec<u8>,
}

/// Bounds on the length of the file that an entry describes: from the
/// rdiff signature of a `signature` entry, or the data length of a
/// `snapshot` entry.
pub open spec fn spec_size_hint(e: SigTarEntry) -> Option<(usize, usize)> {
    match e.header_path {
        Some(hp) => match spec_parse_snapshot_path(hp@) {
            Some((DiffType::Signature, _)) => spec_size_hint_signature(e.head@, e.size),
            Some((DiffType::Snapshot, _)) => match e.size {
                Some(sz) => Some((sz as usize, sz as usize)),
                None => None,
            },
            _ => None,
        },
        None => None,
    }
}

/// The size hint of the entry cannot be computed without overflow.
pub open spec fn entry_hint_overflows(e: SigTarEntry) -> bool {
    match e.header_path {
        Some(hp) => match spec_parse_snapshot_path(hp@) {
            Some((DiffType::Signature, _)) => size_hint_overflows(e.head@, e.size),
            _ => false,
        },
        None => false,
    }
}

/// Bounds on the length of the file that an entry describes.
pub fn compute_size_hint(e: &SigTarEntry) -> (r: Option<(usize, usize)>)
    requires
        !entry_hint_overflows(*e),
    ensures
        r == spec_size_hint(*e),
{
    let hp = match &e.header_path {
        Some(hp) => hp,
        None => {
            return None;
        },
    };
    match parse_snapshot_path(hp.as_slice()) {
        Some((DiffType::Signature, _)) => compute_size_hint_signature(e.head.as_slice(), e.size),
        Some((DiffType::Snapshot, _)) => match e.size {
            Some(sz) => Some((sz as usize, sz as usize)),
            None => None,
        },
        _ => None,
    }
}

/// Whether computing the size hint of the entry would overflow, as the
/// signature of a file too large for this machine does.
pub fn entry_hint_overflows_exec(e: &SigTarEntry) -> (r: bool)
    ensures
        r == entry_hint_overflows(*e),
{
    let hp = match &e.header_path {
        Some(hp) => hp,
        None => {
            return false;
        },
    };
    match parse_snapshot_path(hp.as_slice()) {
        Some((DiffType::Signature, _)) => size_hint_overflows_exec(e.head.as_slice(), e.size),
        _ => false,
    }
}

/// Whether the size hint of a signature would overflow.
fn size_hint_overflows_exec(head: &[u8], size: Option<u64>) -> (r: bool)
    ensures
        r == size_hint_overflows(head@, size),
{
    if head.len() < 4 {
        return false;
    }
    let magic = read_u32_be(&head[0..4]);
    if magic != 0x72730136u32 {
        return false;
    }
    if head.len() < 12 {
        return false;
    }
    let fbl = read_u32_be(&head[4..8]) as usize;
    let ssl = read_u32_be(&head[8..12]) as usize;
    let sz = match size {
        Some(sz) => sz,
        None => {
            return false;
        },
    };
    let file_size = sz as usize;
    if ssl > usize::MAX - 4 || file_size < 8 {
        return true;
    }
    let nb = (file_size - 8) / (4 + ssl);
    if nb == 0 {
        assert(fbl * nb == 0) by (nonlinear_arith)
            requires
                nb == 0,
        ;
        false
    } else {
        let big = fbl > usize::MAX / nb;
        assert(big == (fbl * nb > usize::MAX)) by (nonlinear_arith)
            requires
                nb > 0,
                big == (fbl > usize::MAX / nb),
        ;
        big
    }
}

/// Metadata of a path in a snapshot.
#[derive(Debug)]
pub struct PathInfo {
    mtime: Timespec,
    uid: Option<u64>,
    gid: Option<u64>,
    mode: Option<u32>,
    entry_type: u8,
    size_hint: Option<(usize, usize)>,
    link: Option<RawPath>,
}

/// What the metadata of a path holds.
pub struct PathInfoView {
    pub mtime: Timespec,
    pub uid: Option<u64>,
    pub gid: Option<u64>,
    pub mode: Option<u32>,
    pub entry_type: u8,
    pub size_hint: Option<(usize, usize)>,
    pub link: Option<Seq<u8>>,
}

impl View for PathInfo {
    type V = PathInfoView;

    closed spec fn view(&self) -> PathInfoView {
        PathInfoView {
            mtime: self.mtime,
            uid: self.uid,
            gid: self.gid,
            mode: self.mode,
            entry_type: self.entry_type,
            size_hint: self.size_hint,
            link: match self.link {
                Some(l) => Some(l@),
                None => None,
            },
        }
    }
}

/// A path in one snapshot: its metadata, or `None` when the snapshot
/// deleted it.
#[derive(Debug)]
struct PathSnapshot {
    info: Option<PathInfo>,
    index: u8,
}

pub struct PathSnapshotView {
    pub info: Option<PathInfoView>,
    pub index: u8,
}

impl View for PathSnapshot {
    type V = PathSnapshotView;

    closed spec fn view(&self) -> PathSnapshotView {
        PathSnapshotView {
            info: match self.info {
                Some(i) => Some(i@),
                None => None,
            },
            index: self.index,
        }
    }
}

/// A path and the snapshots that changed it.
#[derive(Debug)]
struct PathSnapshots {
    path: RawPath,
    snapshots: Vec<PathSnapshot>,
}

pub struct PathSnapshotsView {
    pub path: Seq<u8>,
    pub snapshots: Seq<PathSnapshotView>,
}

impl View for PathSnapshots {
    type V = PathSnapshotsView;

    closed spec fn view(&self) -> PathSnapshotsView {
        PathSnapshotsView {
            path: self.path@,
            snapshots: self.snapshots@.map_values(|s: PathSnapshot| s@),
        }
    }
}

/// The metadata that an entry gives a path; a missing modification time
/// counts as zero.
pub open spec fn info_of(e: SigTarEntry) -> PathInfoView {
    PathInfoView {
        mtime: Timespec {
            sec: (match e.mtime {
                Some(m) => m,
                None => 0,
            }) as i64,
            nsec: 0,
        },
        uid: e.uid,
        gid: e.gid,
        mode: e.mode,
        entry_type: e.entry_type,
        size_hint: spec_size_hint(e),
        link: match e.link_name {
            Some(l) => Some(l@),
            None => None,
        },
    }
}

/// The names after an entry has been read: a user name and a group name
/// are recorded when the entry has both the id and the name.
pub open spec fn names_after(ug: UserGroupMapView, e: SigTarEntry) -> UserGroupMapView {
    UserGroupMapView {
        users: match (e.uid, e.username) {
            (Some(u), Some(n)) => ug.users.insert(u, n@),
            _ => ug.users,
        },
        groups: match (e.gid, e.groupname) {
            (Some(g), Some(n)) => ug.groups.insert(g, n@),
            _ => ug.groups,
        },
    }
}

/// The walk over the paths already in the chain: from `ptr`, every path
/// not after `p` is passed; the last one equal to `p` is where the entry
/// goes. Returns the new position and that path.
pub open spec fn advance(files: Seq<PathSnapshotsView>, ptr: int, p: Seq<u8>, pos: Option<int>) -> (int, Option<int>)
    decreases files.len() - ptr,
{
    if ptr < 0 || ptr >= files.len() {
        (ptr, pos)
    } else {
        match path_order(files[ptr].path, p) {
            Order3::Equal => advance(files, ptr + 1, p, Some(ptr)),
            Order3::Greater => (ptr, pos),
            Order3::Less => advance(files, ptr + 1, p, pos),
        }
    }
}

/// The state of reading a signature archive.
pub struct MergeView {
    /// The paths already in the chain, with what has been added to them.
    pub files: Seq<PathSnapshotsView>,
    /// How far the walk over those paths has gone.
    pub ptr: int,
    /// The paths seen for the first time.
    pub new_files: Seq<PathSnapshotsView>,
    /// The names of users and groups.
    pub ug: UserGroupMapView,
}

/// Reading one entry of a signature archive of snapshot `id`.
pub open spec fn merge_step(st: MergeView, e: SigTarEntry, id: u8) -> MergeView {
    match spec_parse_snapshot_path(e.path@) {
        None => st,
        Some((dt, p)) => {
            let keep = dt is Signature || dt is Snapshot;
            let snap = PathSnapshotView {
                info: if keep {
                    Some(info_of(e))
                } else {
                    None
                },
                index: id,
            };
            let ug = if keep {
                names_after(st.ug, e)
            } else {
                st.ug
            };
            let (nptr, pos) = advance(st.files, st.ptr, p, None);
            match pos {
                Some(i) => MergeView {
                    files: st.files.update(
                        i,
                        PathSnapshotsView {
                            path: st.files[i].path,
                            snapshots: st.files[i].snapshots.push(snap),
                        },
                    ),
                    ptr: nptr,
                    new_files: st.new_files,
                    ug,
                },
                None => MergeView {
                    files: st.files,
                    ptr: nptr,
                    new_files: st.new_files.push(PathSnapshotsView { path: p, snapshots: seq![snap] }),
                    ug,
                },
            }
        },
    }
}

/// Reading the entries of a signature archive, in order.
pub open spec fn merge_entries(st: MergeView, es: Seq<SigTarEntry>, id: u8) -> MergeView
    decreases es.len(),
{
    if es.len() == 0 {
        st
    } else {
        merge_step(merge_entries(st, es.drop_last(), id), es.last(), id)
    }
}

/// The number of leading paths not after `p`.
pub open spec fn count_not_after_path(s: Seq<PathSnapshotsView>, p: Seq<u8>) -> nat
    decreases s.len(),
{
    if s.len() == 0 || path_order(p, s[0].path) == Order3::Less {
        0
    } else {
        1 + count_not_after_path(s.drop_first(), p)
    }
}

/// The stable insertion sort of paths by path order.
pub open spec fn sort_paths(s: Seq<PathSnapshotsView>) -> Seq<PathSnapshotsView>
    decreases s.len(),
{
    if s.len() == 0 {
        s
    } else {
        let r = sort_paths(s.drop_last());
        r.insert(count_not_after_path(r, s.last().path) as int, s.last())
    }
}

/// The paths come in path order (equal paths may follow each other).
pub open spec fn paths_sorted(s: Seq<PathSnapshotsView>) -> bool {
    forall|i: int, j: int|
        #![trigger s[i], s[j]]
        0 <= i < j < s.len() ==> path_order(s[i].path, s[j].path) != Order3::Greater
}

/// The leading paths counted are those not after `p`, and the next one
/// comes after `p`.
proof fn lemma_count_not_after_path(s: Seq<PathSnapshotsView>, p: Seq<u8>)
    ensures
        count_not_after_path(s, p) <= s.len(),
        forall|i: int|
            0 <= i < count_not_after_path(s, p) ==> path_order(p, #[trigger] s[i].path)
                != Order3::Less,
        count_not_after_path(s, p) < s.len() ==> path_order(p, s[count_not_after_path(s, p) as int].path)
            == Order3::Less,
    decreases s.len(),
{
    if s.len() > 0 && path_order(p, s[0].path) != Order3::Less {
        lemma_count_not_after_path(s.drop_first(), p);
        assert forall|i: int| 0 <= i < count_not_after_path(s, p) implies path_order(p, #[trigger] s[i].path)
            != Order3::Less by {
            if i > 0 {
                assert(s[i] == s.drop_first()[i - 1]);
            }
        }
        if count_not_after_path(s, p) < s.len() {
            assert(s[count_not_after_path(s, p) as int] == s.drop_first()[count_not_after_path(
                s.drop_first(),
                p,
            ) as int]);
        }
    }
}

/// A position with only paths not after `p` before it, and after `p` at
/// it, is the count of leading paths not after `p`.
proof fn lemma_count_at(s: Seq<PathSnapshotsView>, p: Seq<u8>, j: int)
    requires
        0 <= j <= s.len(),
        forall|i: int| 0 <= i < j ==> path_order(p, #[trigger] s[i].path) != Order3::Less,
        j < s.len() ==> path_order(p, s[j].path) == Order3::Less,
    ensures
        count_not_after_path(s, p) == j,
    decreases s.len(),
{
    if s.len() > 0 && j > 0 {
        assert(path_order(p, s[0].path) != Order3::Less);
        assert forall|i: int| 0 <= i < j - 1 implies path_order(p, #[trigger] s.drop_first()[i].path)
            != Order3::Less by {
            assert(s.drop_first()[i] == s[i + 1]);
        }
        if j < s.len() {
            assert(s.drop_first()[j - 1] == s[j]);
        }
        lemma_count_at(s.drop_first(), p, j - 1);
    }
}

/// Inserting a path after the leading paths not after it keeps sorted
/// paths sorted.
proof fn lemma_insert_sorted(r: Seq<PathSnapshotsView>, x: PathSnapshotsView)
    requires
        paths_sorted(r),
    ensures
        paths_sorted(r.insert(count_not_after_path(r, x.path) as int, x)),
{
    lemma_count_not_after_path(r, x.path);
    let c = count_not_after_path(r, x.path) as int;
    let t = r.insert(c, x);
    assert forall|i: int, j: int| 0 <= i < j < t.len() implies path_order(#[trigger] t[i].path, #[trigger] t[j].path)
        != Order3::Greater by {
        if i < c && j == c {
            crate::rawpath::lemma_path_order(x.path, r[i].path, x.path);
        } else if i == c && j > c {
            crate::rawpath::lemma_path_order(x.path, r[c].path, r[j - 1].path);
            if j - 1 > c {
                assert(path_order(r[c].path, r[j - 1].path) != Order3::Greater);
            }
        } else if i < c && j > c {
            assert(path_order(r[i].path, r[j - 1].path) != Order3::Greater);
        } else if j < c {
            assert(path_order(r[i].path, r[j].path) != Order3::Greater);
        } else {
            assert(path_order(r[i - 1].path, r[j - 1].path) != Order3::Greater);
        }
    }
}

/// Sorting gives sorted paths, as many as there were.
proof fn lemma_sort_paths(s: Seq<PathSnapshotsView>)
    ensures
        paths_sorted(sort_paths(s)),
        sort_paths(s).len() == s.len(),
    decreases s.len(),
{
    if s.len() > 0 {
        lemma_sort_paths(s.drop_last());
        lemma_count_not_after_path(sort_paths(s.drop_last()), s.last().path);
        lemma_insert_sorted(sort_paths(s.drop_last()), s.last());
    }
}

/// Sorting sorted paths changes nothing.
proof fn lemma_sort_sorted(s: Seq<PathSnapshotsView>)
    requires
        paths_sorted(s),
    ensures
        sort_paths(s) == s,
    decreases s.len(),
{
    if s.len() > 0 {
        let d = s.drop_last();
        assert(paths_sorted(d));
        lemma_sort_sorted(d);
        assert forall|i: int| 0 <= i < d.len() implies path_order(s.last().path, #[trigger] d[i].path)
            != Order3::Less by {
            crate::rawpath::lemma_path_order(d[i].path, s.last().path, d[i].path);
            assert(s[i] == d[i]);
            assert(path_order(s[i].path, s[s.len() - 1].path) != Order3::Greater);
        }
        lemma_count_at(d, s.last().path, d.len() as int);
        assert(d.insert(d.len() as int, s.last()) =~= s);
    }
}

/// Stores information about paths in a backup chain.
///
/// The information is reused among different snapshots if possible.
#[derive(Debug)]
pub struct Chain {
    num_snapshots: u8,
    files: Vec<PathSnapshots>,
    ug_map: UserGroupMap,
}

/// What a chain holds.
pub struct ChainView {
    pub num_snapshots: u8,
    pub files: Seq<PathSnapshotsView>,
    pub ug: UserGroupMapView,
}

impl View for Chain {
    type V = ChainView;

    closed spec fn view(&self) -> ChainView {
        ChainView {
            num_snapshots: self.num_snapshots,
            files: self.files@.map_values(|f: PathSnapshots| f@),
            ug: self.ug_map@,
        }
    }
}

/// A chain after a signature archive of snapshot `id` has been read: its
/// entries are added to the paths, and the paths seen for the first time
/// join the others, sorted by path.
pub open spec fn spec_add_sigtar(c: ChainView, es: Seq<SigTarEntry>, id: u8) -> ChainView {
    let st = merge_entries(
        MergeView { files: c.files, ptr: 0, new_files: Seq::empty(), ug: c.ug },
        es,
        id,
    );
    ChainView {
        num_snapshots: c.num_snapshots,
        files: if st.new_files.len() > 0 {
            sort_paths(st.files + st.new_files)
        } else {
            st.files
        },
        ug: st.ug,
    }
}

/// No entry of the archive overflows in its size hint.
pub open spec fn entries_computable(es: Seq<SigTarEntry>) -> bool {
    forall|i: int| 0 <= i < es.len() ==> !entry_hint_overflows(#[trigger] es[i])
}


/// The views of a list of paths with their snapshots.
spec fn snaps_view(v: Seq<PathSnapshots>) -> Seq<PathSnapshotsView> {
    v.map_values(|f: PathSnapshots| f@)
}

/// A chain keeps its paths sorted.
pub open spec fn chain_wf(c: ChainView) -> bool {
    paths_sorted(c.files)
}

/// A chain with no snapshot.
pub open spec fn empty_chain() -> ChainView {
    ChainView {
        num_snapshots: 0,
        files: Seq::empty(),
        ug: UserGroupMapView { users: Map::empty(), groups: Map::empty() },
    }
}

/// A chain after the signature archive of its next snapshot has been read.
pub open spec fn spec_add_next(c: ChainView, es: Seq<SigTarEntry>) -> ChainView {
    ChainView { num_snapshots: (c.num_snapshots + 1) as u8, ..spec_add_sigtar(c, es, c.num_snapshots) }
}

/// The chain read from signature archives, in order.
pub open spec fn spec_chain_of(archives: Seq<Seq<SigTarEntry>>) -> ChainView
    decreases archives.len(),
{
    if archives.len() == 0 {
        empty_chain()
    } else {
        spec_add_next(spec_chain_of(archives.drop_last()), archives.last())
    }
}

impl PathInfo {
    /// The metadata that an entry gives its path.
    fn from_entry(e: &SigTarEntry) -> (r: PathInfo)
        requires
            !entry_hint_overflows(*e),
        ensures
            r@ == info_of(*e),
    {
        let mtime = match e.mtime {
            Some(m) => m,
            None => 0,
        };
        let link = match &e.link_name {
            Some(l) => Some(RawPath::from_bytes(l.clone())),
            None => None,
        };
        PathInfo {
            mtime: Timespec { sec: mtime as i64, nsec: 0 },
            uid: e.uid,
            gid: e.gid,
            mode: e.mode,
            entry_type: e.entry_type,
            size_hint: compute_size_hint(e),
            link,
        }
    }
}

impl Chain {
    /// Builds a new empty signature chain.
    pub fn new() -> (r: Self)
        ensures
            r@.num_snapshots == 0,
            r@.files == Seq::<PathSnapshotsView>::empty(),
            r@.ug.users == Map::<u64, Seq<char>>::empty(),
            r@.ug.groups == Map::<u64, Seq<char>>::empty(),
            chain_wf(r@),
    {
        let r = Chain { num_snapshots: 0, files: Vec::new(), ug_map: UserGroupMap::new() };
        assert(r@.files =~= Seq::<PathSnapshotsView>::empty());
        r
    }

    /// Records the user and group names that an entry carries.
    fn record_names(&mut self, e: &SigTarEntry)
        ensures
            final(self)@.ug == names_after(old(self)@.ug, *e),
            final(self)@.files == old(self)@.files,
            final(self)@.num_snapshots == old(self)@.num_snapshots,
    {
        match (e.uid, &e.username) {
            (Some(uid), Some(name)) => {
                self.ug_map.add_user(uid, name.clone());
            },
            _ => {},
        }
        match (e.gid, &e.groupname) {
            (Some(gid), Some(name)) => {
                self.ug_map.add_group(gid, name.clone());
            },
            _ => {},
        }
    }

    /// Walks the chain's paths from `ptr` past those not after `p`; gives
    /// where the walk stopped and the last path equal to `p`.
    fn find_path(&self, ptr: usize, p: &[u8]) -> (r: (usize, Option<usize>))
        requires
            ptr <= self@.files.len(),
        ensures
            advance(self@.files, ptr as int, p@, None) == (
                r.0 as int,
                match r.1 {
                    Some(i) => Some(i as int),
                    None => None,
                },
            ),
            ptr <= r.0 <= self@.files.len(),
            r.1 matches Some(i) ==> ptr <= i < r.0,
    {
        let ghost fv = self@.files;
        let mut cur = ptr;
        let mut pos: Option<usize> = None;
        while cur < self.files.len()
            invariant_except_break
                ptr <= cur <= fv.len(),
                fv == self@.files,
                fv.len() == self.files@.len(),
                pos matches Some(i) ==> ptr <= i < cur,
                advance(fv, ptr as int, p@, None) == advance(
                    fv,
                    cur as int,
                    p@,
                    match pos {
                        Some(i) => Some(i as int),
                        None => None,
                    },
                ),
            ensures
                ptr <= cur <= fv.len(),
                pos matches Some(i) ==> ptr <= i < cur,
                advance(fv, ptr as int, p@, None) == (
                    cur as int,
                    match pos {
                        Some(i) => Some(i as int),
                        None => None,
                    },
                ),
            decreases fv.len() - cur,
        {
            assert(fv[cur as int] == self.files@[cur as int]@);
            match path_order_exec(self.files[cur].path.as_bytes(), p) {
                Order3::Equal => {
                    pos = Some(cur);
                    cur = cur + 1;
                },
                Order3::Greater => {
                    break;
                },
                Order3::Less => {
                    cur = cur + 1;
                },
            }
        }
        (cur, pos)
    }

    /// Reads the entries of a signature archive of snapshot `snapshot_id`
    /// into the chain's paths; gives the paths seen for the first time.
    fn merge_sigtar(&mut self, entries: &[SigTarEntry], snapshot_id: u8) -> (r: Vec<PathSnapshots>)
        requires
            chain_wf(old(self)@),
            entries_computable(entries@),
        ensures
            ({
                let st = merge_entries(
                    MergeView {
                        files: old(self)@.files,
                        ptr: 0,
                        new_files: Seq::empty(),
                        ug: old(self)@.ug,
                    },
                    entries@,
                    snapshot_id,
                );
                &&& final(self)@.files == st.files
                &&& final(self)@.ug == st.ug
                &&& snaps_view(r@) == st.new_files
            }),
            final(self)@.num_snapshots == old(self)@.num_snapshots,
            chain_wf(final(self)@),
    {
        let ghost init = MergeView {
            files: old(self)@.files,
            ptr: 0,
            new_files: Seq::empty(),
            ug: old(self)@.ug,
        };
        let mut new_files: Vec<PathSnapshots> = Vec::new();
        let mut ptr: usize = 0;
        let mut k: usize = 0;
        assert(entries@.take(0) =~= Seq::<SigTarEntry>::empty());
        assert(snaps_view(new_files@) =~= Seq::<PathSnapshotsView>::empty());
        while k < entries.len()
            invariant
                k <= entries@.len(),
                entries_computable(entries@),
                chain_wf(self@),
                self@.num_snapshots == old(self)@.num_snapshots,
                ptr <= self@.files.len(),
                merge_entries(init, entries@.take(k as int), snapshot_id) == (MergeView {
                    files: self@.files,
                    ptr: ptr as int,
                    new_files: snaps_view(new_files@),
                    ug: self@.ug,
                }),
            decreases entries@.len() - k,
        {
            let e = &entries[k];
            assert(entries@.take(k + 1).drop_last() =~= entries@.take(k as int));
            assert(entries@.take(k + 1).last() == entries@[k as int]);
            assert(!entry_hint_overflows(entries@[k as int]));
            match parse_snapshot_path(e.path.as_slice()) {
                None => {},
                Some((dt, p)) => {
                    let keep = match dt {
                        DiffType::Deleted => false,
                        _ => true,
                    };
                    let info = if keep {
                        self.record_names(e);
                        Some(PathInfo::from_entry(e))
                    } else {
                        None
                    };
                    let snap = PathSnapshot { info, index: snapshot_id };
                    let (nptr, pos) = self.find_path(ptr, p.as_slice());
                    ptr = nptr;
                    match pos {
                        Some(i) => {
                            let ghost before = self@.files;
                            let ghost snaps_before = self.files@[i as int].snapshots@;
                            self.files[i].snapshots.push(snap);
                            proof {
                                assert(self.files@[i as int].snapshots@ =~= snaps_before.push(snap));
                                assert(self.files@[i as int]@.snapshots =~= before[i as int].snapshots.push(
                                    snap@,
                                ));
                                assert(self@.files =~= before.update(
                                    i as int,
                                    PathSnapshotsView {
                                        path: before[i as int].path,
                                        snapshots: before[i as int].snapshots.push(snap@),
                                    },
                                ));
                                assert forall|a: int, b: int|
                                    0 <= a < b < self@.files.len() implies path_order(
                                    #[trigger] self@.files[a].path,
                                    #[trigger] self@.files[b].path,
                                ) != Order3::Greater by {
                                    assert(before[a].path == self@.files[a].path);
                                    assert(before[b].path == self@.files[b].path);
                                }
                            }
                        },
                        None => {
                            let ghost nv = snaps_view(new_files@);
                            let ps = PathSnapshots { path: RawPath::from_bytes(p), snapshots: vec![snap] };
                            proof {
                                assert(ps.snapshots@ =~= seq![snap]);
                                assert(ps@.snapshots =~= seq![snap@]);
                            }
                            new_files.push(ps);
                            assert(snaps_view(new_files@) =~= nv.push(ps@));
                        },
                    }
                },
            }
            k = k + 1;
        }
        assert(entries@.take(entries@.len() as int) =~= entries@);
        new_files
    }

    /// Adds the entries of a signature archive of snapshot `snapshot_id`:
    /// each entry joins its path, and the paths seen for the first time are
    /// merged in path order.
    fn add_sigtar_to_snapshots(&mut self, entries: &[SigTarEntry], snapshot_id: u8)
        requires
            chain_wf(old(self)@),
            entries_computable(entries@),
        ensures
            final(self)@ == spec_add_sigtar(old(self)@, entries@, snapshot_id),
            chain_wf(final(self)@),
    {
        let new_files = self.merge_sigtar(entries, snapshot_id);
        if new_files.len() > 0 {
            let ghost base = self@.files;
            let ghost nv = snaps_view(new_files@);
            let mut r: Vec<PathSnapshots> = Vec::new();
            std::mem::swap(&mut r, &mut self.files);
            proof {
                lemma_sort_sorted(base);
                assert(base + nv.take(0) =~= base);
            }
            for item in it: new_files.into_iter()
                invariant
                    nv == snaps_view(it.seq()) ,
                    nv.len() == it.seq().len(),
                    snaps_view(r@) == sort_paths(base + nv.take(it.index() as int)),
                    paths_sorted(snaps_view(r@)),
            {
                let ghost k = it.index() as int;
                let ghost before = snaps_view(r@);
                let j = insertion_point(&r, item.path.as_bytes());
                r.insert(j, item);
                proof {
                    assert(item@ == nv[k]);
                    assert((base + nv.take(k + 1)).drop_last() =~= base + nv.take(k));
                    assert((base + nv.take(k + 1)).last() == nv[k]);
                    assert(snaps_view(r@) =~= before.insert(j as int, item@));
                    lemma_insert_sorted(before, item@);
                }
            }
            proof {
                assert(nv.take(nv.len() as int) =~= nv);
            }
            self.files = r;
        }
        proof {
            if new_files@.len() == 0 {
            }
        }
    }

    /// Adds the entries of the signature archive of the next snapshot, as
    /// read from the archive in order. The chain then holds one snapshot
    /// more.
    pub fn add_sigtar_entries(&mut self, entries: &[SigTarEntry])
        requires
            chain_wf(old(self)@),
            entries_computable(entries@),
            old(self)@.num_snapshots < 255,
        ensures
            final(self)@ == spec_add_next(old(self)@, entries@),
            chain_wf(final(self)@),
    {
        let id = self.num_snapshots;
        self.add_sigtar_to_snapshots(entries, id);
        self.num_snapshots = id + 1;
    }

    /// The snapshots of the chain, from the first.
    pub fn snapshots(&self) -> (r: Snapshots<'_>)
        ensures
            r.chain_view() == self@,
            r.position() == 0,
    {
        Snapshots { chain: self, snapshot_id: 0 }
    }

    /// The number of snapshots in the chain.
    pub fn num_snapshots(&self) -> (r: u8)
        ensures
            r == self@.num_snapshots,
    {
        self.num_snapshots
    }

    /// Builds a chain from the signature archives of a signature chain: the
    /// full signature's first, then the incremental ones in order. Each
    /// archive is given as the entries read from it, in order.
    pub fn from_sigchain(archives: &[Vec<SigTarEntry>]) -> (r: Self)
        requires
            archives@.len() < 256,
            forall|i: int| 0 <= i < archives@.len() ==> entries_computable(#[trigger] archives@[i]@),
        ensures
            r@ == spec_chain_of(archives@.map_values(|a: Vec<SigTarEntry>| a@)),
            chain_wf(r@),
    {
        let ghost av = archives@.map_values(|a: Vec<SigTarEntry>| a@);
        let mut chain = Chain::new();
        let mut k: usize = 0;
        assert(av.take(0) =~= Seq::<Seq<SigTarEntry>>::empty());
        assert(chain@ == empty_chain());
        while k < archives.len()
            invariant
                k <= archives@.len(),
                archives@.len() < 256,
                forall|i: int| 0 <= i < archives@.len() ==> entries_computable(#[trigger] archives@[i]@),
                av == archives@.map_values(|a: Vec<SigTarEntry>| a@),
                chain@ == spec_chain_of(av.take(k as int)),
                chain@.num_snapshots == k,
                chain_wf(chain@),
            decreases archives@.len() - k,
        {
            chain.add_sigtar_entries(archives[k].as_slice());
            assert(av.take(k + 1).drop_last() =~= av.take(k as int));
            assert(av.take(k + 1).last() == archives@[k as int]@);
            k = k + 1;
        }
        assert(av.take(k as int) =~= av);
        chain
    }
}


/// Where a path goes in sorted paths: after all those not after it.
fn insertion_point(r: &Vec<PathSnapshots>, p: &[u8]) -> (j: usize)
    requires
        paths_sorted(snaps_view(r@)),
    ensures
        j == count_not_after_path(snaps_view(r@), p@),
        j <= r@.len(),
{
    let ghost sv = snaps_view(r@);
    let mut j = r.len();
    while j > 0
        invariant_except_break
            j <= r@.len(),
            sv == snaps_view(r@),
            forall|i: int| j <= i < r@.len() ==> path_order(#[trigger] sv[i].path, p@) == Order3::Greater,
        ensures
            j <= r@.len(),
            forall|i: int| j <= i < r@.len() ==> path_order(#[trigger] sv[i].path, p@) == Order3::Greater,
            j > 0 ==> path_order(sv[j - 1].path, p@) != Order3::Greater,
        decreases j,
    {
        assert(sv[j - 1] == r@[j - 1]@);
        match path_order_exec(r[j - 1].path.as_bytes(), p) {
            Order3::Greater => {
                j = j - 1;
            },
            _ => {
                break;
            },
        }
    }
    proof {
        assert forall|i: int| 0 <= i < j implies path_order(p@, #[trigger] sv[i].path) != Order3::Less by {
            crate::rawpath::lemma_path_order(sv[i].path, sv[j - 1].path, p@);
            crate::rawpath::lemma_path_order(sv[i].path, p@, p@);
            if i < j - 1 {
                assert(path_order(sv[i].path, sv[j - 1].path) != Order3::Greater);
            }
        }
        if j < r@.len() {
            crate::rawpath::lemma_path_order(sv[j as int].path, p@, p@);
        }
        lemma_count_at(sv, p@, j as int);
    }
    j
}


/// The signatures of the snapshots of a chain, in creation order.
#[derive(Debug)]
pub struct Snapshots<'a> {
    chain: &'a Chain,
    snapshot_id: u8,
}

/// The signature of one snapshot of a chain.
#[derive(Debug)]
pub struct Snapshot<'a> {
    chain: &'a Chain,
    index: u8,
}

impl<'a> Snapshots<'a> {
    #[verifier::type_invariant]
    spec fn inv(self) -> bool {
        self.snapshot_id <= self.chain@.num_snapshots
    }

    /// The chain walked.
    pub closed spec fn chain_view(&self) -> ChainView {
        self.chain@
    }

    /// The index of the next snapshot to give.
    pub closed spec fn position(&self) -> u8 {
        self.snapshot_id
    }

    /// The next snapshot, if any is left.
    pub fn next(&mut self) -> (r: Option<Snapshot<'a>>)
        ensures
            final(self).chain_view() == old(self).chain_view(),
            old(self).position() < old(self).chain_view().num_snapshots ==> {
                &&& r matches Some(s)
                &&& s.index() == old(self).position()
                &&& s.chain_view() == old(self).chain_view()
                &&& final(self).position() == old(self).position() + 1
            },
            old(self).position() >= old(self).chain_view().num_snapshots ==> r is None
                && final(self).position() == old(self).position(),
    {
        if self.snapshot_id < self.chain.num_snapshots {
            let id = self.snapshot_id;
            self.snapshot_id = id + 1;
            Some(Snapshot { chain: self.chain, index: id })
        } else {
            None
        }
    }

    /// Skips `n` snapshots and gives the next one. When no snapshot is
    /// there, or the index would not fit a byte, gives nothing and stays
    /// where it was.
    pub fn nth(&mut self, n: usize) -> (r: Option<Snapshot<'a>>)
        ensures
            final(self).chain_view() == old(self).chain_view(),
            ({
                let id = old(self).position() + n;
                if id < 255 && id < old(self).chain_view().num_snapshots {
                    &&& r matches Some(s)
                    &&& s.index() == id
                    &&& s.chain_view() == old(self).chain_view()
                    &&& final(self).position() == id + 1
                } else {
                    r is None && final(self).position() == old(self).position()
                }
            }),
    {
        if n >= 255 || n + self.snapshot_id as usize >= 255 {
            return None;
        }
        let id = self.snapshot_id + n as u8;
        if id < self.chain.num_snapshots {
            self.snapshot_id = id + 1;
            Some(Snapshot { chain: self.chain, index: id })
        } else {
            None
        }
    }

    /// The number of snapshots left.
    pub fn len(&self) -> (r: usize)
        ensures
            r == self.chain_view().num_snapshots - self.position(),
    {
        proof {
            use_type_invariant(self);
        }
        (self.chain.num_snapshots - self.snapshot_id) as usize
    }
}

/// The last change that snapshot `index`, or one before it, made to a path.
pub open spec fn latest_change(snaps: Seq<PathSnapshotView>, index: u8) -> Option<PathSnapshotView>
    decreases snaps.len(),
{
    if snaps.len() == 0 {
        None
    } else if snaps.last().index <= index {
        Some(snaps.last())
    } else {
        latest_change(snaps.drop_last(), index)
    }
}

/// The metadata of a path in snapshot `index`: none when the path was not
/// there yet, or was deleted.
pub open spec fn info_in_snapshot(ps: PathSnapshotsView, index: u8) -> Option<PathInfoView> {
    match latest_change(ps.snapshots, index) {
        Some(s) => s.info,
        None => None,
    }
}

/// The first position at or after `pos` of a path present in snapshot
/// `index`, or the number of paths.
pub open spec fn next_present(files: Seq<PathSnapshotsView>, index: u8, pos: nat) -> nat
    decreases files.len() - pos,
{
    if pos >= files.len() {
        files.len()
    } else if info_in_snapshot(files[pos as int], index) is Some {
        pos
    } else {
        next_present(files, index, pos + 1)
    }
}

/// The paths of snapshot `index`, in order, with their metadata.
pub open spec fn snapshot_entries(files: Seq<PathSnapshotsView>, index: u8) -> Seq<(Seq<u8>, PathInfoView)>
    decreases files.len(),
{
    if files.len() == 0 {
        Seq::empty()
    } else {
        let rest = snapshot_entries(files.drop_last(), index);
        match info_in_snapshot(files.last(), index) {
            Some(i) => rest.push((files.last().path, i)),
            None => rest,
        }
    }
}

impl<'a> Snapshot<'a> {
    /// The chain of the snapshot.
    pub closed spec fn chain_view(&self) -> ChainView {
        self.chain@
    }

    /// The index of the snapshot in its chain.
    pub closed spec fn index(&self) -> u8 {
        self.index
    }

    /// The index of the snapshot in its chain, from zero.
    pub fn snapshot_index(&self) -> (r: u8)
        ensures
            r == self.index(),
    {
        self.index
    }

    /// The files and directories of the snapshot, in path order.
    pub fn files(&self) -> (r: SnapshotEntries<'a>)
        ensures
            r.chain_view() == self.chain_view(),
            r.index() == self.index(),
            r.position() == 0,
    {
        SnapshotEntries { index: self.index, pos: 0, chain: self.chain }
    }
}

/// The files and directories of a snapshot.
#[derive(Clone, Copy)]
pub struct SnapshotEntries<'a> {
    index: u8,
    pos: usize,
    chain: &'a Chain,
}

/// A file, a directory or a link of a snapshot.
#[derive(Debug)]
pub struct Entry<'a> {
    path: &'a RawPath,
    info: &'a PathInfo,
    ug_map: &'a UserGroupMap,
}

/// What an entry tells.
pub struct EntryView {
    pub path: Seq<u8>,
    pub info: PathInfoView,
    pub ug: UserGroupMapView,
}

impl<'a> View for Entry<'a> {
    type V = EntryView;

    closed spec fn view(&self) -> EntryView {
        EntryView { path: self.path@, info: self.info@, ug: self.ug_map@ }
    }
}

impl<'a> SnapshotEntries<'a> {
    /// The chain the entries come from.
    pub closed spec fn chain_view(&self) -> ChainView {
        self.chain@
    }

    /// The snapshot the entries belong to.
    pub closed spec fn index(&self) -> u8 {
        self.index
    }

    /// How far the walk over the chain's paths has gone.
    pub closed spec fn position(&self) -> nat {
        self.pos as nat
    }

    /// The next path present in the snapshot, with its metadata there.
    pub fn next(&mut self) -> (r: Option<Entry<'a>>)
        ensures
            final(self).chain_view() == old(self).chain_view(),
            final(self).index() == old(self).index(),
            ({
                let files = old(self).chain_view().files;
                let p = next_present(files, old(self).index(), old(self).position());
                if p < files.len() {
                    &&& r matches Some(e)
                    &&& e@ == (EntryView {
                        path: files[p as int].path,
                        info: info_in_snapshot(files[p as int], old(self).index())->0,
                        ug: old(self).chain_view().ug,
                    })
                    &&& final(self).position() == p + 1
                } else {
                    r is None && final(self).position() == files.len()
                }
            }),
    {
        let chain: &'a Chain = self.chain;
        let index = self.index;
        let ghost files = chain@.files;
        let ghost start = self.pos as nat;
        if self.pos > chain.files.len() {
            self.pos = chain.files.len();
        }
        while self.pos < chain.files.len()
            invariant
                self.chain == chain,
                self.index == index,
                old(self).chain == chain,
                old(self).index == index,
                start == old(self).pos as nat,
                files == chain@.files,
                files.len() == chain.files@.len(),
                self.pos <= files.len(),
                next_present(files, index, start) == next_present(files, index, self.pos as nat),
            decreases files.len() - self.pos,
        {
            let i = self.pos;
            let ps: &'a PathSnapshots = &chain.files[i];
            self.pos = i + 1;
            assert(files[i as int] == ps@);
            let mut k = ps.snapshots.len();
            assert(ps@.snapshots.take(k as int) =~= ps@.snapshots);
            while k > 0
                invariant
                    self.chain == chain,
                    self.index == index,
                    old(self).chain == chain,
                    old(self).index == index,
                    start == old(self).pos as nat,
                    self.pos == i + 1,
                    files == chain@.files,
                    files.len() == chain.files@.len(),
                    i < files.len(),
                    files[i as int] == ps@,
                    next_present(files, index, start) == next_present(files, index, i as nat),
                    k <= ps.snapshots@.len(),
                    latest_change(ps@.snapshots, index) == latest_change(ps@.snapshots.take(k as int), index),
                ensures
                    self.chain == chain,
                    self.index == index,
                    self.pos == i + 1,
                    k <= ps.snapshots@.len(),
                    latest_change(ps@.snapshots, index) == latest_change(ps@.snapshots.take(k as int), index),
                    k > 0 ==> ps.snapshots@[k - 1].index <= index,
                decreases k,
            {
                if ps.snapshots[k - 1].index <= index {
                    break;
                }
                assert(ps@.snapshots.take(k as int).drop_last() =~= ps@.snapshots.take(k - 1));
                k = k - 1;
            }
            if k > 0 {
                let s = &ps.snapshots[k - 1];
                assert(ps@.snapshots.take(k as int).last() == s@);
                assert(latest_change(ps@.snapshots, index) == Some(s@));
                match &s.info {
                    Some(info) => {
                        assert(info_in_snapshot(files[i as int], index) == Some(info@));
                        assert(next_present(files, index, i as nat) == i);
                        let e = Entry { path: &ps.path, info, ug_map: &chain.ug_map };
                        return Some(e);
                    },
                    None => {},
                }
            } else {
                assert(ps@.snapshots.take(0) =~= Seq::<PathSnapshotView>::empty());
            }
        }
        None
    }
}

/// The character that shows an entry type, as `ls -l` does.
pub open spec fn type_char(t: EntryType) -> char {
    match t {
        EntryType::File | EntryType::HardLink => '-',
        EntryType::Dir => 'd',
        EntryType::SymLink => 'l',
        EntryType::Fifo => 'p',
        EntryType::Unknown(_) => '?',
    }
}

/// The name of a user or group by id, or `?`.
pub open spec fn name_text(id: Option<u64>, names: Map<u64, Seq<char>>) -> Seq<char> {
    match id {
        Some(i) => if names.contains_key(i) {
            names[i]
        } else {
            "?"@
        },
        None => "?"@,
    }
}

/// The upper bound of a size hint, or `?`.
pub open spec fn size_text(hint: Option<(usize, usize)>) -> Seq<char> {
    match hint {
        Some((_, hi)) => decimal_text(hi as nat),
        None => "?"@,
    }
}

/// The line that shows an entry, in the style of `ls -l`, given the text
/// of its modification time: type and mode, user, group, size, time and
/// path, separated by tabs.
pub open spec fn spec_entry_line(e: EntryView, time_text: Seq<char>) -> Seq<char> {
    seq![type_char(spec_entry_type(e.info.entry_type))] + spec_mode_string(e.info.mode) + "\t"@
        + name_text(e.info.uid, e.ug.users) + "\t"@ + name_text(e.info.gid, e.ug.groups) + "\t"@
        + size_text(e.info.size_hint) + "\t"@ + time_text + "\t"@ + path_display_text(e.path)
}

/// The text of one entry type letter.
fn type_str(t: EntryType) -> (r: &'static str)
    ensures
        r@ == seq![type_char(t)],
{
    proof {
        reveal_strlit("-");
        reveal_strlit("d");
        reveal_strlit("l");
        reveal_strlit("p");
        reveal_strlit("?");
    }
    match t {
        EntryType::File | EntryType::HardLink => "-",
        EntryType::Dir => "d",
        EntryType::SymLink => "l",
        EntryType::Fifo => "p",
        EntryType::Unknown(_) => "?",
    }
}

impl<'a> Entry<'a> {
    /// The full path of the entry.
    pub fn path(&self) -> (r: &'a RawPath)
        ensures
            r@ == self@.path,
    {
        self.path
    }

    /// The bytes of the entry's path.
    pub fn path_bytes(&self) -> (r: &'a [u8])
        ensures
            r@ == self@.path,
    {
        self.path.as_bytes()
    }

    /// The owner's user id.
    pub fn userid(&self) -> (r: Option<u64>)
        ensures
            r == self@.info.uid,
    {
        self.info.uid
    }

    /// The group's id.
    pub fn groupid(&self) -> (r: Option<u64>)
        ensures
            r == self@.info.gid,
    {
        self.info.gid
    }

    /// The mode bits.
    pub fn mode(&self) -> (r: Option<u32>)
        ensures
            r == self@.info.mode,
    {
        self.info.mode
    }

    /// The name of the owner, when the chain knows it.
    pub fn username(&self) -> (r: Option<&'a str>)
        ensures
            match r {
                Some(n) => self@.info.uid matches Some(u) && self@.ug.users.contains_key(u) && n@
                    == self@.ug.users[u],
                None => !(self@.info.uid matches Some(u) && self@.ug.users.contains_key(u)),
            },
    {
        let ug: &'a UserGroupMap = self.ug_map;
        match self.info.uid {
            Some(uid) => ug.get_user_name(uid),
            None => None,
        }
    }

    /// The name of the group, when the chain knows it.
    pub fn groupname(&self) -> (r: Option<&'a str>)
        ensures
            match r {
                Some(n) => self@.info.gid matches Some(g) && self@.ug.groups.contains_key(g) && n@
                    == self@.ug.groups[g],
                None => !(self@.info.gid matches Some(g) && self@.ug.groups.contains_key(g)),
            },
    {
        let ug: &'a UserGroupMap = self.ug_map;
        match self.info.gid {
            Some(gid) => ug.get_group_name(gid),
            None => None,
        }
    }

    /// The last modification time.
    pub fn mtime(&self) -> (r: Timespec)
        ensures
            r == self@.info.mtime,
    {
        self.info.mtime
    }

    /// A lower and an upper bound, in bytes, on the entry's size (zero for
    /// directories).
    pub fn size_hint(&self) -> (r: Option<(usize, usize)>)
        ensures
            r == self@.info.size_hint,
    {
        self.info.size_hint
    }

    /// The type of the entry.
    pub fn entry_type(&self) -> (r: EntryType)
        ensures
            r == spec_entry_type(self@.info.entry_type),
    {
        EntryType::new(self.info.entry_type)
    }

    /// The path a symbolic link points to.
    pub fn linked_path(&self) -> (r: Option<&'a RawPath>)
        ensures
            match r {
                Some(p) => self@.info.link == Some(p@),
                None => self@.info.link is None,
            },
    {
        let info: &'a PathInfo = self.info;
        match &info.link {
            Some(p) => Some(p),
            None => None,
        }
    }

    /// The line that shows the entry, given the text of its time.
    pub fn line_with_time(&self, time_text: &str) -> (r: String)
        ensures
            r@ == spec_entry_line(self@, time_text@),
    {
        proof {
            reveal_strlit("\t");
            reveal_strlit("?");
        }
        let mut out = String::new();
        out.append(type_str(self.entry_type()));
        let mode = mode_string(self.info.mode);
        out.append(mode.as_str());
        out.append("\t");
        match self.username() {
            Some(n) => out.append(n),
            None => out.append("?"),
        }
        out.append("\t");
        match self.groupname() {
            Some(n) => out.append(n),
            None => out.append("?"),
        }
        out.append("\t");
        match self.info.size_hint {
            Some((_, hi)) => {
                let t = decimal_string(hi);
                out.append(t.as_str());
            },
            None => out.append("?"),
        }
        out.append("\t");
        out.append(time_text);
        out.append("\t");
        let p = self.path.display_string();
        out.append(p.as_str());
        assert(out@ =~= spec_entry_line(self@, time_text@));
        out
    }

    /// The line that shows the entry, with its time in the local time zone
    /// (see `PrettyDisplay`).
    pub fn to_display_string(&self) -> (r: String)
        requires
            ts_displayable(self@.info.mtime),
        ensures
            exists|t: Seq<char>| local_time_text_of(self@.info.mtime, t) && r@ == spec_entry_line(self@, t),
    {
        let d = self.info.mtime.into_local_display();
        let t = d.to_display_string();
        proof {
            let y = choose|y: i32| t@ == spec_pretty_text(y, d@);
            assert(local_clock_of(self@.info.mtime, d@) && t@ == spec_pretty_text(y, d@));
            assert(local_time_text_of(self@.info.mtime, t@));
        }
        self.line_with_time(t.as_str())
    }
}

/// The paths of snapshot `index` at or after position `pos`.
pub open spec fn remaining_entries(files: Seq<PathSnapshotsView>, index: u8, pos: nat) -> Seq<(Seq<u8>, PathInfoView)> {
    if pos >= files.len() {
        Seq::empty()
    } else {
        snapshot_entries(files.subrange(pos as int, files.len() as int), index)
    }
}

proof fn lemma_snapshot_entries_append(a: Seq<PathSnapshotsView>, b: Seq<PathSnapshotsView>, index: u8)
    ensures
        snapshot_entries(a + b, index) == snapshot_entries(a, index) + snapshot_entries(b, index),
    decreases b.len(),
{
    if b.len() == 0 {
        assert(a + b =~= a);
        assert(snapshot_entries(a, index) + snapshot_entries(b, index) =~= snapshot_entries(a, index));
    } else {
        lemma_snapshot_entries_append(a, b.drop_last(), index);
        assert((a + b).drop_last() =~= a + b.drop_last());
        assert((a + b).last() == b.last());
        match info_in_snapshot(b.last(), index) {
            Some(i) => {
                assert(snapshot_entries(a, index) + snapshot_entries(b, index) =~= (snapshot_entries(a, index)
                    + snapshot_entries(b.drop_last(), index)).push((b.last().path, i)));
            },
            None => {},
        }
    }
}

/// Walking to the next path present in a snapshot takes the first of the
/// remaining entries, or finds none left.
pub proof fn lemma_next_present(files: Seq<PathSnapshotsView>, index: u8, pos: nat)
    requires
        pos <= files.len(),
    ensures
        pos <= next_present(files, index, pos) <= files.len(),
        next_present(files, index, pos) < files.len() ==> {
            let p = next_present(files, index, pos);
            &&& info_in_snapshot(files[p as int], index) is Some
            &&& remaining_entries(files, index, pos) == seq![
                (files[p as int].path, info_in_snapshot(files[p as int], index)->0),
            ] + remaining_entries(files, index, p + 1)
        },
        next_present(files, index, pos) == files.len() ==> remaining_entries(files, index, pos)
            == Seq::<(Seq<u8>, PathInfoView)>::empty(),
    decreases files.len() - pos,
{
    if pos < files.len() {
        let sub = files.subrange(pos as int, files.len() as int);
        let rest = files.subrange((pos + 1) as int, files.len() as int);
        assert(sub =~= seq![files[pos as int]] + rest);
        lemma_snapshot_entries_append(seq![files[pos as int]], rest, index);
        let one = seq![files[pos as int]];
        assert(one.drop_last() =~= Seq::<PathSnapshotsView>::empty());
        assert(one.last() == files[pos as int]);
        assert(snapshot_entries(one.drop_last(), index) =~= Seq::<(Seq<u8>, PathInfoView)>::empty());
        if pos + 1 == files.len() {
            assert(rest =~= Seq::<PathSnapshotsView>::empty());
            assert(snapshot_entries(rest, index) =~= Seq::<(Seq<u8>, PathInfoView)>::empty());
        }
        match info_in_snapshot(files[pos as int], index) {
            Some(i) => {
                assert(snapshot_entries(one, index) =~= seq![(files[pos as int].path, i)]);
            },
            None => {
                assert(snapshot_entries(one, index) =~= Seq::<(Seq<u8>, PathInfoView)>::empty());
                lemma_next_present(files, index, pos + 1);
                assert(remaining_entries(files, index, pos) =~= remaining_entries(files, index, pos + 1));
            },
        }
    }
}

impl<'a> SnapshotEntries<'a> {
    /// All the remaining entries, in path order.
    pub fn to_vec(&mut self) -> (r: Vec<Entry<'a>>)
        ensures
            final(self).chain_view() == old(self).chain_view(),
            final(self).index() == old(self).index(),
            r@.map_values(|e: Entry<'a>| (e@.path, e@.info)) == remaining_entries(
                old(self).chain_view().files,
                old(self).index(),
                old(self).position(),
            ),
            forall|i: int| 0 <= i < r@.len() ==> (#[trigger] r@[i])@.ug == old(self).chain_view().ug,
    {
        let ghost files = self.chain_view().files;
        let ghost index = self.index();
        let ghost start = self.position();
        let mut r: Vec<Entry<'a>> = Vec::new();
        loop
            invariant
                self.chain_view() == old(self).chain_view(),
                self.index() == index,
                index == old(self).index(),
                files == old(self).chain_view().files,
                start == old(self).position(),
                r@.map_values(|e: Entry<'a>| (e@.path, e@.info)) + remaining_entries(files, index, self.position())
                    == remaining_entries(files, index, start),
                forall|i: int| 0 <= i < r@.len() ==> (#[trigger] r@[i])@.ug == old(self).chain_view().ug,
            decreases files.len() - self.position(),
        {
            let ghost pos = self.position();
            let ghost before = r@;
            proof {
                if pos <= files.len() {
                    lemma_next_present(files, index, pos);
                }
            }
            match self.next() {
                Some(e) => {
                    r.push(e);
                    assert(r@.map_values(|e: Entry<'a>| (e@.path, e@.info)) =~= before.map_values(
                        |e: Entry<'a>| (e@.path, e@.info),
                    ).push((e@.path, e@.info)));
                    let ghost p = next_present(files, index, pos);
                    assert(before.map_values(|e: Entry<'a>| (e@.path, e@.info)).push((e@.path, e@.info))
                        + remaining_entries(files, index, p + 1) =~= before.map_values(
                        |e: Entry<'a>| (e@.path, e@.info),
                    ) + (seq![(e@.path, e@.info)] + remaining_entries(files, index, p + 1)));
                },
                None => {
                    assert(remaining_entries(files, index, pos) =~= Seq::<(Seq<u8>, PathInfoView)>::empty());
                    assert(r@.map_values(|e: Entry<'a>| (e@.path, e@.info)) + Seq::<(Seq<u8>, PathInfoView)>::empty()
                        =~= r@.map_values(|e: Entry<'a>| (e@.path, e@.info)));
                    return r;
                },
            }
        }
    }
}

/// Shows the entries of a snapshot, one line each with aligned columns, in
/// the style of `ls -l`.
pub struct SnapshotEntriesDisplay<'a>(SnapshotEntries<'a>);

impl<'a> SnapshotEntries<'a> {
    /// A display of the remaining entries.
    pub fn into_display(self) -> (r: SnapshotEntriesDisplay<'a>)
        ensures
            r.entries() == self,
    {
        SnapshotEntriesDisplay(self)
    }
}

/// Lines joined, each ended by a newline.
pub open spec fn joined_lines(lines: Seq<Seq<char>>) -> Seq<char>
    decreases lines.len(),
{
    if lines.len() == 0 {
        Seq::empty()
    } else {
        joined_lines(lines.drop_last()) + lines.last() + "\n"@
    }
}

/// What `tabwriter::TabWriter`, with its default settings, writes for a
/// text: the text with the cells between tabs padded with spaces to align
/// the columns, or `None` when that is not UTF-8.
pub uninterp spec fn spec_tab_align(text: Seq<char>) -> Option<Seq<char>>;

/// Calls `tabwriter::TabWriter::new` on a `Vec`, writes the text into it and
/// takes the buffer back with `into_inner` (which flushes). The result is a
/// function of the text alone, named `spec_tab_align`.
#[verifier::external_body]
fn tab_align(text: &str) -> (r: Option<String>)
    ensures
        match r {
            Some(t) => spec_tab_align(text@) == Some(t@),
            None => spec_tab_align(text@) is None,
        },
{
    let mut tw = tabwriter::TabWriter::new(Vec::new());
    match std::io::Write::write_all(&mut tw, text.as_bytes()) {
        Ok(()) => {},
        Err(_) => return None,
    }
    match tw.into_inner() {
        Ok(v) => String::from_utf8(v).ok(),
        Err(_) => None,
    }
}

/// The times of the entries can be broken down into calendar dates.
pub open spec fn entries_displayable(es: Seq<(Seq<u8>, PathInfoView)>) -> bool {
    forall|i: int| 0 <= i < es.len() ==> ts_displayable((#[trigger] es[i]).1.mtime)
}

/// The line shows the entry, with the text of some time.
pub open spec fn shows_entry(line: Seq<char>, e: (Seq<u8>, PathInfoView), ug: UserGroupMapView) -> bool {
    exists|t: Seq<char>|
        local_time_text_of(e.1.mtime, t) && line == spec_entry_line(EntryView { path: e.0, info: e.1, ug }, t)
}

/// The lines show the entries, in order.
pub open spec fn lines_show(lines: Seq<Seq<char>>, es: Seq<(Seq<u8>, PathInfoView)>, ug: UserGroupMapView) -> bool {
    &&& lines.len() == es.len()
    &&& forall|i: int| 0 <= i < es.len() ==> #[trigger] shows_entry(lines[i], es[i], ug)
}

impl<'a> SnapshotEntriesDisplay<'a> {
    /// The entries shown.
    pub closed spec fn entries(&self) -> SnapshotEntries<'a> {
        self.0
    }

    /// The text of the display: a line for each entry (see
    /// `Entry::to_display_string`), with the columns aligned.
    pub fn to_display_string(&self) -> (r: Option<String>)
        requires
            entries_displayable(
                remaining_entries(
                    self.entries().chain_view().files,
                    self.entries().index(),
                    self.entries().position(),
                ),
            ),
        ensures
            exists|lines: Seq<Seq<char>>|
                {
                    &&& lines_show(
                        lines,
                        remaining_entries(
                            self.entries().chain_view().files,
                            self.entries().index(),
                            self.entries().position(),
                        ),
                        self.entries().chain_view().ug,
                    )
                    &&& match r {
                        Some(t) => spec_tab_align(joined_lines(lines)) == Some(t@),
                        None => spec_tab_align(joined_lines(lines)) is None,
                    }
                },
    {
        let mut it = self.0;
        let es = it.to_vec();
        let ghost ev = es@.map_values(|e: Entry<'a>| (e@.path, e@.info));
        let ghost ug = self.entries().chain_view().ug;
        let mut text = String::new();
        let ghost mut lines: Seq<Seq<char>> = Seq::empty();
        let mut k: usize = 0;
        proof {
            reveal_strlit("\n");
        }
        while k < es.len()
            invariant
                k <= es@.len(),
                ev == es@.map_values(|e: Entry<'a>| (e@.path, e@.info)),
                entries_displayable(ev),
                forall|i: int| 0 <= i < es@.len() ==> (#[trigger] es@[i])@.ug == ug,
                lines.len() == k,
                forall|i: int| 0 <= i < k ==> #[trigger] shows_entry(lines[i], ev[i], ug),
                text@ == joined_lines(lines),
            decreases es@.len() - k,
        {
            let e = &es[k];
            assert(ev[k as int] == (e@.path, e@.info));
            assert(ts_displayable(ev[k as int].1.mtime));
            let line = e.to_display_string();
            let ghost prev = lines;
            proof {
                lines = lines.push(line@);
                assert(lines.drop_last() =~= prev);
            }
            text.append(line.as_str());
            text.append("\n");
            assert(e@ == EntryView { path: ev[k as int].0, info: ev[k as int].1, ug });
            let ghost t = choose|t: Seq<char>|
                local_time_text_of(e@.info.mtime, t) && line@ == spec_entry_line(e@, t);
            assert(shows_entry(lines[k as int], ev[k as int], ug));
            assert forall|i: int| 0 <= i < k + 1 implies #[trigger] shows_entry(lines[i], ev[i], ug) by {
                if i < k {
                    assert(lines[i] == prev[i]);
                }
            }
            k = k + 1;
        }
        assert(lines_show(lines, ev, ug));
        tab_align(text.as_str())
    }
}

/// Every snapshot recorded for the paths is one of the first `n`.
pub open spec fn snapshots_below(files: Seq<PathSnapshotsView>, n: int) -> bool {
    forall|i: int, j: int|
        0 <= i < files.len() && 0 <= j < files[i].snapshots.len() ==> (#[trigger] files[i].snapshots[j]).index < n
}

/// A chain whose paths are sorted and whose recorded snapshots are all
/// among its snapshots.
pub open spec fn chain_valid(c: ChainView) -> bool {
    &&& chain_wf(c)
    &&& snapshots_below(c.files, c.num_snapshots as int)
}

/// The walk over the paths stays within them.
proof fn lemma_advance(files: Seq<PathSnapshotsView>, ptr: int, p: Seq<u8>, pos: Option<int>)
    requires
        0 <= ptr <= files.len(),
        pos matches Some(i) ==> 0 <= i < ptr,
    ensures
        ptr <= advance(files, ptr, p, pos).0 <= files.len(),
        advance(files, ptr, p, pos).1 matches Some(i) ==> 0 <= i < advance(files, ptr, p, pos).0,
    decreases files.len() - ptr,
{
    if ptr < files.len() {
        match path_order(files[ptr].path, p) {
            Order3::Equal => lemma_advance(files, ptr + 1, p, Some(ptr)),
            Order3::Greater => {},
            Order3::Less => lemma_advance(files, ptr + 1, p, pos),
        }
    }
}

/// The paths after reading entries extend those before: the same paths,
/// each with snapshots `id` added after its own, and new paths whose
/// snapshots are all `id`.
pub open spec fn merge_extends(a: MergeView, b: MergeView, id: u8) -> bool {
    &&& 0 <= b.ptr <= b.files.len()
    &&& b.files.len() == a.files.len()
    &&& forall|i: int|
        0 <= i < a.files.len() ==> {
            &&& (#[trigger] b.files[i]).path == a.files[i].path
            &&& b.files[i].snapshots.len() >= a.files[i].snapshots.len()
            &&& b.files[i].snapshots.subrange(0, a.files[i].snapshots.len() as int) == a.files[i].snapshots
            &&& forall|j: int|
                a.files[i].snapshots.len() <= j < b.files[i].snapshots.len() ==> (
                #[trigger] b.files[i].snapshots[j]).index == id
        }
    &&& b.new_files.len() >= a.new_files.len()
    &&& b.new_files.subrange(0, a.new_files.len() as int) == a.new_files
    &&& forall|i: int, j: int|
        a.new_files.len() <= i < b.new_files.len() && 0 <= j < b.new_files[i].snapshots.len() ==> (
        #[trigger] b.new_files[i].snapshots[j]).index == id
}

proof fn lemma_merge_step(st: MergeView, e: SigTarEntry, id: u8)
    requires
        0 <= st.ptr <= st.files.len(),
    ensures
        merge_extends(st, merge_step(st, e, id), id),
{
    let r = merge_step(st, e, id);
    match spec_parse_snapshot_path(e.path@) {
        None => {
            assert(r.new_files.subrange(0, st.new_files.len() as int) =~= st.new_files);
            assert forall|i: int| 0 <= i < st.files.len() implies r.files[i].snapshots.subrange(
                0,
                st.files[i].snapshots.len() as int,
            ) == st.files[i].snapshots by {
                assert(r.files[i].snapshots.subrange(0, st.files[i].snapshots.len() as int)
                    =~= st.files[i].snapshots);
            }
        },
        Some((dt, p)) => {
            lemma_advance(st.files, st.ptr, p, None);
            let (nptr, pos) = advance(st.files, st.ptr, p, None);
            match pos {
                Some(k) => {
                    assert(r.new_files.subrange(0, st.new_files.len() as int) =~= st.new_files);
                    assert forall|i: int| 0 <= i < st.files.len() implies r.files[i].snapshots.subrange(
                        0,
                        st.files[i].snapshots.len() as int,
                    ) == st.files[i].snapshots by {
                        assert(r.files[i].snapshots.subrange(0, st.files[i].snapshots.len() as int)
                            =~= st.files[i].snapshots);
                    }
                },
                None => {
                    assert(r.new_files.subrange(0, st.new_files.len() as int) =~= st.new_files);
                    assert forall|i: int| 0 <= i < st.files.len() implies r.files[i].snapshots.subrange(
                        0,
                        st.files[i].snapshots.len() as int,
                    ) == st.files[i].snapshots by {
                        assert(r.files[i].snapshots.subrange(0, st.files[i].snapshots.len() as int)
                            =~= st.files[i].snapshots);
                    }
                },
            }
        },
    }
}

proof fn lemma_merge_extends_refl(a: MergeView, id: u8)
    requires
        0 <= a.ptr <= a.files.len(),
    ensures
        merge_extends(a, a, id),
{
    assert(a.new_files.subrange(0, a.new_files.len() as int) =~= a.new_files);
    assert forall|i: int| 0 <= i < a.files.len() implies a.files[i].snapshots.subrange(
        0,
        a.files[i].snapshots.len() as int,
    ) == a.files[i].snapshots by {
        assert(a.files[i].snapshots.subrange(0, a.files[i].snapshots.len() as int) =~= a.files[i].snapshots);
    }
}

proof fn lemma_merge_extends_trans(a: MergeView, b: MergeView, c: MergeView, id: u8)
    requires
        merge_extends(a, b, id),
        merge_extends(b, c, id),
    ensures
        merge_extends(a, c, id),
{
    assert forall|i: int| 0 <= i < a.files.len() implies {
        &&& (#[trigger] c.files[i]).path == a.files[i].path
        &&& c.files[i].snapshots.len() >= a.files[i].snapshots.len()
        &&& c.files[i].snapshots.subrange(0, a.files[i].snapshots.len() as int) == a.files[i].snapshots
        &&& forall|j: int|
            a.files[i].snapshots.len() <= j < c.files[i].snapshots.len() ==> (
            #[trigger] c.files[i].snapshots[j]).index == id
    } by {
        let la = a.files[i].snapshots.len() as int;
        let lb = b.files[i].snapshots.len() as int;
        assert(c.files[i].snapshots.subrange(0, la) =~= c.files[i].snapshots.subrange(0, lb).subrange(0, la));
        assert forall|j: int| la <= j < c.files[i].snapshots.len() implies (
        #[trigger] c.files[i].snapshots[j]).index == id by {
            if j < lb {
                assert(c.files[i].snapshots[j] == c.files[i].snapshots.subrange(0, lb)[j]);
                assert(b.files[i].snapshots[j].index == id);
            }
        }
    }
    let na = a.new_files.len() as int;
    let nb = b.new_files.len() as int;
    assert(c.new_files.subrange(0, na) =~= c.new_files.subrange(0, nb).subrange(0, na));
    assert forall|i: int, j: int|
        na <= i < c.new_files.len() && 0 <= j < c.new_files[i].snapshots.len() implies (
        #[trigger] c.new_files[i].snapshots[j]).index == id by {
        if i < nb {
            assert(c.new_files[i] == c.new_files.subrange(0, nb)[i]);
            assert(b.new_files[i].snapshots[j].index == id);
        }
    }
}

proof fn lemma_merge_entries(st: MergeView, es: Seq<SigTarEntry>, id: u8)
    requires
        0 <= st.ptr <= st.files.len(),
    ensures
        merge_extends(st, merge_entries(st, es, id), id),
    decreases es.len(),
{
    if es.len() == 0 {
        lemma_merge_extends_refl(st, id);
    } else {
        let mid = merge_entries(st, es.drop_last(), id);
        lemma_merge_entries(st, es.drop_last(), id);
        lemma_merge_step(mid, es.last(), id);
        lemma_merge_extends_trans(st, mid, merge_step(mid, es.last(), id), id);
    }
}

/// Snapshots recorded after those of a path, all later than `index`, do
/// not change what snapshot `index` holds of it.
proof fn lemma_latest_change_extra(s: Seq<PathSnapshotView>, t: Seq<PathSnapshotView>, index: u8)
    requires
        t.len() >= s.len(),
        t.subrange(0, s.len() as int) == s,
        forall|j: int| s.len() <= j < t.len() ==> (#[trigger] t[j]).index > index,
    ensures
        latest_change(t, index) == latest_change(s, index),
    decreases t.len(),
{
    if t.len() > s.len() {
        assert(t.drop_last().subrange(0, s.len() as int) =~= t.subrange(0, s.len() as int));
        lemma_latest_change_extra(s, t.drop_last(), index);
    } else {
        assert(t =~= s);
    }
}

/// Paths that agree one by one, in path and in what snapshot `index`
/// holds, give the same entries of that snapshot.
proof fn lemma_entries_pointwise(a: Seq<PathSnapshotsView>, b: Seq<PathSnapshotsView>, index: u8)
    requires
        a.len() == b.len(),
        forall|i: int|
            0 <= i < a.len() ==> (#[trigger] a[i]).path == b[i].path && info_in_snapshot(a[i], index)
                == info_in_snapshot(b[i], index),
    ensures
        snapshot_entries(a, index) == snapshot_entries(b, index),
    decreases a.len(),
{
    if a.len() > 0 {
        assert forall|i: int| 0 <= i < a.drop_last().len() implies (#[trigger] a.drop_last()[i]).path
            == b.drop_last()[i].path && info_in_snapshot(a.drop_last()[i], index) == info_in_snapshot(
            b.drop_last()[i],
            index,
        ) by {
            assert(a.drop_last()[i] == a[i]);
            assert(b.drop_last()[i] == b[i]);
        }
        lemma_entries_pointwise(a.drop_last(), b.drop_last(), index);
        assert(a.last() == a[a.len() - 1]);
    }
}

/// A path absent from snapshot `index` adds no entry to it, wherever it
/// is inserted.
proof fn lemma_entries_insert_absent(r: Seq<PathSnapshotsView>, j: int, x: PathSnapshotsView, index: u8)
    requires
        0 <= j <= r.len(),
        info_in_snapshot(x, index) is None,
    ensures
        snapshot_entries(r.insert(j, x), index) == snapshot_entries(r, index),
{
    let a = r.subrange(0, j);
    let b = r.subrange(j, r.len() as int);
    assert(r.insert(j, x) =~= a + seq![x] + b);
    assert(r =~= a + b);
    lemma_snapshot_entries_append(a + seq![x], b, index);
    lemma_snapshot_entries_append(a, seq![x], index);
    lemma_snapshot_entries_append(a, b, index);
    assert(seq![x].drop_last() =~= Seq::<PathSnapshotsView>::empty());
    assert(seq![x].last() == x);
    assert(snapshot_entries(seq![x].drop_last(), index) =~= Seq::<(Seq<u8>, PathInfoView)>::empty());
    assert(snapshot_entries(seq![x], index) =~= Seq::<(Seq<u8>, PathInfoView)>::empty());
    assert(snapshot_entries(a, index) + snapshot_entries(seq![x], index) =~= snapshot_entries(a, index));
}

/// Merging by path order paths absent from snapshot `index` into sorted
/// paths leaves the entries of that snapshot as they were.
proof fn lemma_sort_new_absent(base: Seq<PathSnapshotsView>, nf: Seq<PathSnapshotsView>, index: u8, k: int)
    requires
        paths_sorted(base),
        0 <= k <= nf.len(),
        forall|i: int| 0 <= i < nf.len() ==> info_in_snapshot(#[trigger] nf[i], index) is None,
    ensures
        snapshot_entries(sort_paths(base + nf.take(k)), index) == snapshot_entries(base, index),
    decreases k,
{
    if k == 0 {
        assert(base + nf.take(0) =~= base);
        lemma_sort_sorted(base);
    } else {
        lemma_sort_new_absent(base, nf, index, k - 1);
        let s = base + nf.take(k);
        assert(s.drop_last() =~= base + nf.take(k - 1));
        assert(s.last() == nf[k - 1]);
        let r = sort_paths(base + nf.take(k - 1));
        lemma_count_not_after_path(r, nf[k - 1].path);
        lemma_entries_insert_absent(r, count_not_after_path(r, nf[k - 1].path) as int, nf[k - 1], index);
    }
}

/// The paths of a sort are among those sorted.
proof fn lemma_sort_paths_contains(s: Seq<PathSnapshotsView>)
    ensures
        forall|k: int| 0 <= k < sort_paths(s).len() ==> s.contains(#[trigger] sort_paths(s)[k]),
    decreases s.len(),
{
    if s.len() > 0 {
        lemma_sort_paths_contains(s.drop_last());
        let r = sort_paths(s.drop_last());
        lemma_count_not_after_path(r, s.last().path);
        let c = count_not_after_path(r, s.last().path) as int;
        assert forall|k: int| 0 <= k < sort_paths(s).len() implies s.contains(#[trigger] sort_paths(s)[k]) by {
            if k < c {
                assert(sort_paths(s)[k] == r[k]);
                let j = choose|j: int| 0 <= j < s.drop_last().len() && s.drop_last()[j] == r[k];
                assert(s[j] == r[k]);
            } else if k == c {
                assert(s[s.len() - 1] == s.last());
            } else {
                assert(sort_paths(s)[k] == r[k - 1]);
                let j = choose|j: int| 0 <= j < s.drop_last().len() && s.drop_last()[j] == r[k - 1];
                assert(s[j] == r[k - 1]);
            }
        }
    }
}

/// Reading the signature archive of a new snapshot leaves every earlier
/// snapshot of the chain as it was: its entries, paths and metadata, are
/// the same.
pub proof fn law_earlier_snapshots_unchanged(c: ChainView, es: Seq<SigTarEntry>, index: u8)
    requires
        chain_valid(c),
        index < c.num_snapshots,
    ensures
        snapshot_entries(spec_add_next(c, es).files, index) == snapshot_entries(c.files, index),
{
    let id = c.num_snapshots;
    let init = MergeView { files: c.files, ptr: 0, new_files: Seq::empty(), ug: c.ug };
    let st = merge_entries(init, es, id);
    lemma_merge_entries(init, es, id);
    assert forall|i: int| 0 <= i < st.files.len() implies (#[trigger] st.files[i]).path == c.files[i].path
        && info_in_snapshot(st.files[i], index) == info_in_snapshot(c.files[i], index) by {
        lemma_latest_change_extra(c.files[i].snapshots, st.files[i].snapshots, index);
    }
    lemma_entries_pointwise(st.files, c.files, index);
    if st.new_files.len() > 0 {
        assert(paths_sorted(st.files)) by {
            assert forall|a: int, b: int| 0 <= a < b < st.files.len() implies path_order(
                #[trigger] st.files[a].path,
                #[trigger] st.files[b].path,
            ) != Order3::Greater by {
                assert(st.files[a].path == c.files[a].path);
                assert(st.files[b].path == c.files[b].path);
            }
        }
        assert forall|i: int| 0 <= i < st.new_files.len() implies info_in_snapshot(
            #[trigger] st.new_files[i],
            index,
        ) is None by {
            assert(st.new_files[i].snapshots.subrange(0, 0) =~= Seq::<PathSnapshotView>::empty());
            lemma_latest_change_extra(Seq::empty(), st.new_files[i].snapshots, index);
        }
        lemma_sort_new_absent(st.files, st.new_files, index, st.new_files.len() as int);
        assert(st.new_files.take(st.new_files.len() as int) =~= st.new_files);
    }
}

/// Reading the signature archive of a new snapshot keeps a chain valid:
/// its paths stay sorted, and every recorded snapshot is one of its own.
pub proof fn law_add_next_valid(c: ChainView, es: Seq<SigTarEntry>)
    requires
        chain_valid(c),
        c.num_snapshots < 255,
    ensures
        chain_valid(spec_add_next(c, es)),
        spec_add_next(c, es).num_snapshots == c.num_snapshots + 1,
{
    let id = c.num_snapshots;
    let init = MergeView { files: c.files, ptr: 0, new_files: Seq::empty(), ug: c.ug };
    let st = merge_entries(init, es, id);
    lemma_merge_entries(init, es, id);
    let n = c.num_snapshots + 1;
    assert(paths_sorted(st.files)) by {
        assert forall|a: int, b: int| 0 <= a < b < st.files.len() implies path_order(
            #[trigger] st.files[a].path,
            #[trigger] st.files[b].path,
        ) != Order3::Greater by {
            assert(st.files[a].path == c.files[a].path);
            assert(st.files[b].path == c.files[b].path);
        }
    }
    assert(snapshots_below(st.files, n)) by {
        assert forall|i: int, j: int| 0 <= i < st.files.len() && 0 <= j < st.files[i].snapshots.len() implies (
        #[trigger] st.files[i].snapshots[j]).index < n by {
            let l = c.files[i].snapshots.len() as int;
            if j < l {
                assert(st.files[i].snapshots[j] == st.files[i].snapshots.subrange(0, l)[j]);
                assert(c.files[i].snapshots[j].index < c.num_snapshots);
            }
        }
    }
    if st.new_files.len() > 0 {
        let all = st.files + st.new_files;
        lemma_sort_paths(all);
        lemma_sort_paths_contains(all);
        assert forall|i: int, j: int|
            0 <= i < sort_paths(all).len() && 0 <= j < sort_paths(all)[i].snapshots.len() implies (
            #[trigger] sort_paths(all)[i].snapshots[j]).index < n by {
            let x = sort_paths(all)[i];
            let k = choose|k: int| 0 <= k < all.len() && all[k] == x;
            if k < st.files.len() {
                assert(all[k] == st.files[k]);
            } else {
                assert(all[k] == st.new_files[k - st.files.len()]);
            }
        }
    }
}

/// The chain read from signature archives is valid and holds one snapshot
/// per archive.
pub proof fn law_chain_of_valid(archives: Seq<Seq<SigTarEntry>>)
    requires
        archives.len() < 256,
    ensures
        chain_valid(spec_chain_of(archives)),
        spec_chain_of(archives).num_snapshots == archives.len(),
    decreases archives.len(),
{
    if archives.len() == 0 {
        assert(paths_sorted(empty_chain().files));
    } else {
        law_chain_of_valid(archives.drop_last());
        law_add_next_valid(spec_chain_of(archives.drop_last()), archives.last());
    }
}

} // verus!
