use ruplicity::signatures::{
    _mode_display, compute_size_hint, entry_hint_overflows_exec, mode_string, Chain, EntryType,
    SigTarEntry, UserGroupMap,
};
use ruplicity::timefmt::Timespec;

#[test]
fn mode_display() {
    assert_eq!(_mode_display(None), "?");
    assert_eq!(_mode_display(Some(0o777)), "rwxrwxrwx");
    assert_eq!(_mode_display(Some(0o000)), "---------");
    assert_eq!(_mode_display(Some(0o444)), "r--r--r--");
    assert_eq!(_mode_display(Some(0o700)), "rwx------");
    assert_eq!(_mode_display(Some(0o542)), "r-xr---w-");
    assert_eq!(_mode_display(Some(0o4100)), "--s------");
    assert_eq!(_mode_display(Some(0o4000)), "--S------");
    assert_eq!(_mode_display(Some(0o7000)), "--S--S--T");
    assert_eq!(_mode_display(Some(0o7111)), "--s--s--t");
}

fn entry(path: &str, mtime: u64, etype: u8, size: u64) -> SigTarEntry {
    SigTarEntry {
        path: path.as_bytes().to_vec(),
        header_path: Some(path.as_bytes().to_vec()),
        mtime: Some(mtime),
        uid: Some(1000),
        gid: Some(100),
        username: Some("michele".to_owned()),
        groupname: Some("users".to_owned()),
        mode: Some(0o644),
        entry_type: etype,
        link_name: None,
        size: Some(size),
        head: Vec::new(),
    }
}

fn full_archive() -> Vec<SigTarEntry> {
    // the first archive may come in any order: its paths are sorted
    vec![entry("snapshot", 10, b'5', 0),
         entry("snapshot/b_file", 11, b'0', 30),
         entry("snapshot/a_dir", 12, b'5', 0),
         entry("snapshot/a_dir/inner", 13, b'0', 5)]
}

fn inc_archive() -> Vec<SigTarEntry> {
    let mut link = entry("snapshot/c_link", 21, b'2', 0);
    link.link_name = Some(b"b_file".to_vec());
    // duplicity writes the entries of an archive in path order
    vec![entry("snapshot/a_dir/inner", 22, b'0', 7),
         entry("deleted/b_file", 20, b'0', 0),
         entry("bogus/x", 23, b'0', 0),
         link]
}

fn names_and_times(chain: &Chain, index: usize) -> Vec<(Vec<u8>, i64)> {
    let mut snaps = chain.snapshots();
    let snapshot = snaps.nth(index).unwrap();
    let mut files = snapshot.files();
    files.to_vec()
         .iter()
         .map(|e| (e.path_bytes().to_vec(), e.mtime().sec))
         .collect()
}

#[test]
fn chain_snapshots_and_files() {
    let chain = Chain::from_sigchain(&[full_archive(), inc_archive()]);
    assert_eq!(chain.snapshots().len(), 2);
    // the paths are sorted, in both snapshots
    assert_eq!(names_and_times(&chain, 0),
               vec![(b"".to_vec(), 10),
                    (b"a_dir".to_vec(), 12),
                    (b"a_dir/inner".to_vec(), 13),
                    (b"b_file".to_vec(), 11)]);
    assert_eq!(names_and_times(&chain, 1),
               vec![(b"".to_vec(), 10),
                    (b"a_dir".to_vec(), 12),
                    (b"a_dir/inner".to_vec(), 22),
                    (b"c_link".to_vec(), 21)]);
}

#[test]
fn earlier_snapshot_unchanged_by_new_one() {
    let mut chain = Chain::new();
    chain.add_sigtar_entries(&full_archive());
    let before = names_and_times(&chain, 0);
    chain.add_sigtar_entries(&inc_archive());
    assert_eq!(names_and_times(&chain, 0), before);
}

#[test]
fn entry_metadata() {
    let chain = Chain::from_sigchain(&[full_archive(), inc_archive()]);
    let mut snaps = chain.snapshots();
    snaps.next();
    let second = snaps.next().unwrap();
    assert!(snaps.next().is_none());
    let mut files = second.files();
    let all = files.to_vec();
    let link = &all[3];
    assert_eq!(link.entry_type(), EntryType::SymLink);
    assert_eq!(link.linked_path().unwrap().as_bytes(), b"b_file");
    assert_eq!(link.username(), Some("michele"));
    assert_eq!(link.groupname(), Some("users"));
    assert_eq!(link.userid(), Some(1000));
    assert_eq!(link.groupid(), Some(100));
    assert_eq!(link.mode(), Some(0o644));
    assert_eq!(link.mtime(), Timespec { sec: 21, nsec: 0 });
    assert_eq!(all[2].size_hint(), Some((7, 7)));
    assert_eq!(all[0].entry_type(), EntryType::Dir);
    assert_eq!(link.line_with_time("Jan 01  1970"),
               "lrw-r--r--\tmichele\tusers\t0\tJan 01  1970\tc_link");
    assert_eq!(all[0].line_with_time("T"), "drw-r--r--\tmichele\tusers\t0\tT\t.");
}

#[test]
fn snapshots_nth_out_of_range() {
    let chain = Chain::from_sigchain(&[full_archive()]);
    let mut snaps = chain.snapshots();
    assert!(snaps.nth(1).is_none());
    assert_eq!(snaps.len(), 1);
    assert!(snaps.nth(300).is_none());
    assert!(snaps.nth(0).is_some());
    assert_eq!(snaps.len(), 0);
}

#[test]
fn signature_size_hint() {
    let mut e = entry("signature/file", 1, b'0', 8 + 12 * 3);
    e.head = vec![0x72, 0x73, 0x01, 0x36, 0, 0, 0x08, 0x00, 0, 0, 0, 8];
    assert!(!entry_hint_overflows_exec(&e));
    assert_eq!(compute_size_hint(&e), Some((4097, 6144)));
    // a wrong magic number gives no hint
    e.head[0] = 0;
    assert_eq!(compute_size_hint(&e), None);
    // a snapshot gives its size
    let s = entry("snapshot/file", 1, b'0', 30);
    assert_eq!(compute_size_hint(&s), Some((30, 30)));
    // a deleted file gives none
    let d = entry("deleted/file", 1, b'0', 30);
    assert_eq!(compute_size_hint(&d), None);
}

#[test]
fn signature_size_hint_overflow_is_detected() {
    let mut e = entry("signature/file", 1, b'0', 4);
    e.head = vec![0x72, 0x73, 0x01, 0x36, 0, 0, 0x08, 0x00, 0, 0, 0, 8];
    // a signature shorter than its header cannot be read
    assert!(entry_hint_overflows_exec(&e));
}

#[test]
fn display_aligns_columns() {
    let chain = Chain::from_sigchain(&[full_archive()]);
    let mut snaps = chain.snapshots();
    let snapshot = snaps.next().unwrap();
    let text = snapshot.files().into_display().to_display_string().unwrap();
    let lines: Vec<&str> = text.lines().collect();
    assert_eq!(lines.len(), 4);
    assert!(lines[0].starts_with("drw-r--r--  michele  users  0"));
    assert!(lines[0].ends_with("  ."));
    assert!(lines[3].ends_with("b_file"));
}

#[test]
fn user_group_map() {
    let mut m = UserGroupMap::new();
    assert!(m.add_user(1, "a".to_owned()));
    assert!(!m.add_user(1, "b".to_owned()));
    assert!(m.add_group(2, "g".to_owned()));
    assert_eq!(m.get_user_name(1), Some("b"));
    assert_eq!(m.get_group_name(2), Some("g"));
    assert_eq!(m.get_user_name(2), None);
}

#[test]
fn entry_types_from_bytes() {
    assert_eq!(EntryType::new(0), EntryType::File);
    assert_eq!(EntryType::new(b'0'), EntryType::File);
    assert_eq!(EntryType::new(b'5'), EntryType::Dir);
    assert_eq!(EntryType::new(b'1'), EntryType::HardLink);
    assert_eq!(EntryType::new(b'2'), EntryType::SymLink);
    assert_eq!(EntryType::new(b'6'), EntryType::Fifo);
    assert_eq!(EntryType::new(b'x'), EntryType::Unknown(b'x'));
    assert_eq!(mode_string(Some(0o755)), "rwxr-xr-x");
}
