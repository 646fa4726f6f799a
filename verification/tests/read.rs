use ruplicity::collections::file_naming::{FileNameInfo, FileNameParser};
use ruplicity::collections::{BackupChain, BackupSet};
use ruplicity::manifest::Manifest;
use ruplicity::read::unslist::UnsafeList;
use ruplicity::read::volume::{cache_request, cache_slot, CacheKind, EntryInfo, EntryType, ResolveEntryPath};
use ruplicity::read::{block_entry_step, BlockEntryStep, extract_path, stream_kind, volume_path_of_entry, volume_source, StreamKind, VolumeError};
use ruplicity::signatures::DiffType;

struct TestResolver {
    data: Vec<Vec<u8>>,
}

impl ResolveEntryPath for TestResolver {
    fn resolve(&mut self, path: &[u8]) -> Option<(usize, u8)> {
        self.data.iter().position(|elem| elem.as_slice() == path).map(|x| (x, 0))
    }
}

#[test]
fn entry_info_of_paths() {
    let i = EntryInfo::new(b"multivol_snapshot/largefile/5").unwrap();
    assert_eq!(i.path, b"largefile".to_vec());
    assert_eq!(i.block_num, Some(5));
    assert_eq!(i.etype, EntryType::Snapshot);
    let i = EntryInfo::new(b"diff/my/file").unwrap();
    assert_eq!(i.path, b"my/file".to_vec());
    assert_eq!(i.block_num, None);
    assert_eq!(i.etype, EntryType::Diff);
    let i = EntryInfo::new(b"deleted/x").unwrap();
    assert_eq!(i.etype, EntryType::Deleted);
    // a multivolume entry without a block number keeps its whole path
    let i = EntryInfo::new(b"multivol_diff/file").unwrap();
    assert_eq!(i.path, b"file".to_vec());
    assert_eq!(i.block_num, None);
    let i = EntryInfo::new(b"multivol_diff/a/b/").unwrap();
    assert_eq!(i.path, b"a/b".to_vec());
    assert_eq!(i.block_num, None);
    assert!(EntryInfo::new(b"other/file").is_none());
    assert!(EntryInfo::new(b"noslash").is_none());
}

/// Where an entry is cached, as a volume reader finds it: what the entry
/// asks for, then the slot of what the resolver answers.
fn cache_target<S: ResolveEntryPath>(resolver: &mut S, full_path: &[u8]) -> Option<(CacheKind, ((usize, u8), usize))> {
    let (kind, path, block) = cache_request(full_path)?;
    let resolved = resolver.resolve(&path);
    cache_slot(kind, block, resolved)
}

#[test]
fn cache_targets() {
    let mut r = TestResolver { data: vec![b"".to_vec(), b"largefile".to_vec()] };
    assert_eq!(cache_target(&mut r, b"multivol_snapshot/largefile/3"),
               Some((CacheKind::Snapshot, ((1, 0), 3))));
    assert_eq!(cache_target(&mut r, b"multivol_diff/largefile/2"),
               Some((CacheKind::Diff, ((1, 0), 2))));
    assert_eq!(cache_target(&mut r, b"diff/largefile"), Some((CacheKind::Diff, ((1, 0), 0))));
    assert_eq!(cache_target(&mut r, b"deleted/largefile"), None);
    assert_eq!(cache_target(&mut r, b"snapshot/unknown"), None);
    assert_eq!(cache_target(&mut r, b"bad"), None);
}

#[test]
fn cache_requests_and_slots() {
    assert_eq!(cache_request(b"multivol_diff/big/file/7"),
               Some((CacheKind::Diff, b"big/file".to_vec(), 7)));
    assert_eq!(cache_request(b"snapshot/a"), Some((CacheKind::Snapshot, b"a".to_vec(), 0)));
    assert_eq!(cache_request(b"deleted/a"), None);
    assert_eq!(cache_request(b"nothing"), None);
    assert_eq!(cache_slot(CacheKind::Snapshot, 4, Some((2, 1))),
               Some((CacheKind::Snapshot, ((2, 1), 4))));
    assert_eq!(cache_slot(CacheKind::Diff, 4, None), None);
}

#[test]
fn extract_paths() {
    assert_eq!(extract_path(b"multivol_diff/my/path/3"), Some(&b"my/path"[..]));
    assert_eq!(extract_path(b"snapshot/my/path"), Some(&b"my/path"[..]));
    assert_eq!(extract_path(b"diff/x"), Some(&b"x"[..]));
    assert_eq!(extract_path(b"deleted/"), None);
    assert_eq!(extract_path(b"multivol_snapshot//3"), None);
    assert_eq!(extract_path(b"other/x"), None);
    assert_eq!(extract_path(b"nothing"), None);
}

#[test]
fn stream_kinds() {
    assert_eq!(stream_kind(Some((0, 0)), DiffType::Snapshot), StreamKind::Null);
    assert_eq!(stream_kind(Some((0, 0)), DiffType::Signature), StreamKind::Null);
    assert_eq!(stream_kind(Some((1, 10)), DiffType::Snapshot), StreamKind::Snapshot);
    assert_eq!(stream_kind(None, DiffType::Snapshot), StreamKind::Snapshot);
    assert_eq!(stream_kind(None, DiffType::Deleted), StreamKind::Null);
}

fn set_of(names: &[&str]) -> BackupSet {
    let parser = FileNameParser::new();
    let mut set = BackupSet::new(&FileNameInfo::new(names[0], parser.parse(names[0]).unwrap()));
    for n in &names[1..] {
        assert!(set.add_filename(&FileNameInfo::new(n, parser.parse(n).unwrap())));
    }
    set
}

#[test]
fn volume_sources() {
    let full = set_of(&["duplicity-full.20150617T182545Z.vol1.difftar.gz",
                        "duplicity-full.20150617T182545Z.vol2.difftar.gz"]);
    let mut chain = BackupChain::new(full);
    let inc = set_of(&["duplicity-inc.20150617T182545Z.to.20150617T182629Z.vol1.difftar"]);
    assert!(chain.add_inc(inc).is_none());
    assert_eq!(volume_source(&chain, 0, 2),
               Ok(("duplicity-full.20150617T182545Z.vol2.difftar.gz", true)));
    assert_eq!(volume_source(&chain, 1, 1),
               Ok(("duplicity-inc.20150617T182545Z.to.20150617T182629Z.vol1.difftar", false)));
    assert_eq!(volume_source(&chain, 0, 3), Err(VolumeError::NoVolumePath(3)));
    assert_eq!(volume_source(&chain, 2, 1), Err(VolumeError::SetNotFound(2)));
    let enc = set_of(&["duplicity-full.20150617T182545Z.vol1.difftar.gpg"]);
    let chain = BackupChain::new(enc);
    assert_eq!(volume_source(&chain, 0, 1), Err(VolumeError::Encrypted));
}

#[test]
fn volume_of_entry() {
    let manifest = Manifest::parse(b"Hostname h
Localdir d
Volume 1:
 StartingPath a
 EndingPath f
 Hash SHA1 00
Volume 2:
 StartingPath g
 EndingPath m
 Hash SHA1 00
").unwrap();
    let set = set_of(&["duplicity-full.20150617T182545Z.vol1.difftar.gz",
                       "duplicity-full.20150617T182545Z.vol2.difftar.gz"]);
    assert_eq!(volume_path_of_entry(&set, &manifest, b"h"),
               Some("duplicity-full.20150617T182545Z.vol2.difftar.gz"));
    assert_eq!(volume_path_of_entry(&set, &manifest, b"b"),
               Some("duplicity-full.20150617T182545Z.vol1.difftar.gz"));
    assert_eq!(volume_path_of_entry(&set, &manifest, b"z"), None);
}

#[test]
fn list_grows_at_front() {
    let mut list = UnsafeList::new();
    assert_eq!(list.len(), 0);
    assert!(list.front().is_none());
    list.push_front(3);
    let head = list.push_front(2);
    assert_eq!(*head.value(), 2);
    assert_eq!(*head.next().unwrap().value(), 3);
    assert!(head.next().unwrap().next().is_none());
    assert!(head.prev().is_none());
    assert_eq!(*head.next().unwrap().prev().unwrap().value(), 2);
    assert_eq!(list.len(), 2);
    assert_eq!(*list.front().unwrap().value(), 2);
    assert_eq!(*list.back().unwrap().value(), 3);
}

#[test]
fn list_grows_at_back() {
    let mut list = UnsafeList::new();
    assert!(list.back().is_none());
    let first = list.push_back(1);
    assert!(first.prev().is_none());
    list.push_back(2);
    let tail = list.push_back(3);
    assert_eq!(*tail.value(), 3);
    assert!(tail.next().is_none());
    assert_eq!(*tail.prev().unwrap().value(), 2);
    assert_eq!(list.len(), 3);
    assert_eq!(*list.front().unwrap().value(), 1);
    assert_eq!(*list.back().unwrap().value(), 3);
}

#[test]
fn block_entries_in_path_order() {
    assert_eq!(block_entry_step(b"multivol_snapshot/a/b/3", b"a/b"), BlockEntryStep::Take);
    assert_eq!(block_entry_step(b"snapshot/a/b", b"a/b"), BlockEntryStep::Take);
    assert_eq!(block_entry_step(b"snapshot/a/a", b"a/b"), BlockEntryStep::Skip);
    assert_eq!(block_entry_step(b"diff/a/c", b"a/b"), BlockEntryStep::Stop);
    assert_eq!(block_entry_step(b"bad", b"a/b"), BlockEntryStep::Skip);
}
