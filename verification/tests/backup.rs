use ruplicity::signatures::{Chain, SigTarEntry};
use ruplicity::{Backup, SnapshotError};

fn names() -> Vec<&'static str> {
    vec!["duplicity-full-signatures.20160108T223144Z.sigtar.gz",
         "duplicity-full-signatures.20160108T223209Z.sigtar.gz",
         "duplicity-full.20160108T223144Z.manifest",
         "duplicity-full.20160108T223144Z.vol1.difftar.gz",
         "duplicity-full.20160108T223209Z.manifest",
         "duplicity-full.20160108T223209Z.vol1.difftar.gz",
         "duplicity-inc.20160108T223144Z.to.20160108T223159Z.manifest",
         "duplicity-inc.20160108T223144Z.to.20160108T223159Z.vol1.difftar.gz",
         "duplicity-inc.20160108T223209Z.to.20160108T223217Z.manifest",
         "duplicity-inc.20160108T223209Z.to.20160108T223217Z.vol1.difftar.gz",
         "duplicity-new-signatures.20160108T223144Z.to.20160108T223159Z.sigtar.gz",
         "duplicity-new-signatures.20160108T223209Z.to.20160108T223217Z.sigtar.gz"]
}

fn entry(path: &str, mtime: u64) -> SigTarEntry {
    SigTarEntry {
        path: path.as_bytes().to_vec(),
        header_path: Some(path.as_bytes().to_vec()),
        mtime: Some(mtime),
        uid: Some(1000),
        gid: Some(1000),
        username: Some("michele".to_owned()),
        groupname: Some("michele".to_owned()),
        mode: Some(0o644),
        entry_type: b'0',
        link_name: None,
        size: Some(0),
        head: Vec::new(),
    }
}

#[test]
fn snapshots_follow_chains() {
    let backup = Backup::new((), &names());
    let mut it = backup.snapshots().into_iter();
    let mut seen = Vec::new();
    while let Some(s) = it.next() {
        assert!(s.is_full() != s.is_incremental());
        seen.push((s.is_full(), s.chain_index(), s.index(), s.num_volumes()));
    }
    assert_eq!(seen,
               vec![(true, 0, 0, 1), (false, 0, 1, 1), (true, 1, 2, 1), (false, 1, 3, 1)]);
    assert_eq!(backup.snapshots().as_collections().num_snapshots(), 4);
}

#[test]
fn entries_need_signature_chain() {
    let mut backup = Backup::new((), &names());
    {
        let mut it = backup.snapshots().into_iter();
        let first = it.next().unwrap();
        assert_eq!(first.entries().err(), Some(SnapshotError::SignatureChainNotRead(0)));
        assert_eq!(first.manifest().err(), Some(SnapshotError::ManifestNotRead(0)));
    }
    let chain = Chain::from_sigchain(&[vec![entry("snapshot", 1), entry("snapshot/file", 2)],
                                       vec![entry("snapshot/file", 3)]]);
    assert!(backup.signature_chain(0).is_none());
    backup.set_signature_chain(0, chain);
    assert!(backup.signature_chain(0).is_some());
    let mut it = backup.snapshots().into_iter();
    let first = it.next().unwrap();
    let second = it.next().unwrap();
    let third = it.next().unwrap();
    let mut e0 = first.entries().unwrap().as_signature();
    let v0 = e0.to_vec();
    assert_eq!(v0.len(), 2);
    assert_eq!(v0[1].path_bytes(), b"file");
    assert_eq!(v0[1].mtime().sec, 2);
    let mut e1 = second.entries().unwrap().as_signature();
    assert_eq!(e1.to_vec()[1].mtime().sec, 3);
    assert_eq!(third.entries().err(), Some(SnapshotError::SignatureChainNotRead(1)));
}

#[test]
fn incomplete_signature_chain() {
    let mut backup = Backup::new((), &names());
    let chain = Chain::from_sigchain(&[vec![entry("snapshot", 1)]]);
    backup.set_signature_chain(0, chain);
    let mut it = backup.snapshots().into_iter();
    it.next();
    let second = it.next().unwrap();
    assert_eq!(second.entries().err(), Some(SnapshotError::IncompleteSignatureChain));
}

#[test]
fn backend_is_kept() {
    let backup = Backup::new(42u32, &names());
    assert_eq!(*backup.backend(), 42);
    assert_eq!(backup.into_inner(), 42);
}

#[test]
fn try_new_opens_countable_backup() {
    let backup = Backup::try_new(7u8, &names()).unwrap();
    assert_eq!(backup.collections().num_snapshots(), 4);
    assert_eq!(*backup.backend(), 7);
}

#[test]
fn incremental_snapshot_starts_at_previous() {
    let backup = Backup::new((), &names());
    let mut it = backup.snapshots().into_iter();
    let mut prev = None;
    let mut n = 0;
    while let Some(s) = it.next() {
        if s.is_incremental() {
            assert_eq!(Some(s.as_backup_set().start_time()), prev);
        }
        assert_eq!(s.time(), s.as_backup_set().end_time());
        prev = Some(s.time());
        n += 1;
    }
    assert_eq!(n, 4);
    assert!(it.next().is_none());
}
