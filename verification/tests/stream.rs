use ruplicity::rawpath::RawPath;
use ruplicity::read::stream::{
    parse_block_path, strip_block_num, strip_trailing_slash, BlockPath, BlockRead, BlockStream,
    BlockType, NullStream, ReadAction, SnapshotStream, StreamError,
};

fn block_path(e: &[u8], t: BlockType) -> BlockPath {
    BlockPath {
        entry_path: RawPath::from_bytes(e.to_vec()),
        block_type: t,
    }
}

#[test]
fn path_parse_block() {
    assert_eq!(parse_block_path(b"deleted/foo"),
               Some(block_path(b"foo", BlockType::Deleted)));
    assert_eq!(parse_block_path(b"signature/foo"),
               Some(block_path(b"foo", BlockType::Signature)));
    assert_eq!(parse_block_path(b"snapshot/foo/"),
               Some(block_path(b"foo", BlockType::Snapshot)));
    assert_eq!(parse_block_path(b"multivol_signature/foo/5"),
               Some(block_path(b"foo", BlockType::MultivolSignature(4))));
    assert_eq!(parse_block_path(b"multivol_snapshot/foo/bar/5"),
               Some(block_path(b"foo/bar", BlockType::MultivolSnapshot(4))));
    assert_eq!(parse_block_path(b"multivol_snapshot/foo/bar/b"), None);
    assert_eq!(parse_block_path(b"bla"), None);
    assert_eq!(parse_block_path(b"deleted/foo/5"),
               Some(block_path(b"foo/5", BlockType::Deleted)));
}

#[test]
fn path_parse_block_num() {
    assert_eq!(strip_block_num(b"my/long/path/3"),
               Some((&b"my/long/path/"[..], 3)));
    assert_eq!(strip_block_num(b"/3"), Some((&b"/"[..], 3)));
    assert_eq!(strip_block_num(b"my/long/path/"), None);
    assert_eq!(strip_block_num(b"3"), None);
    assert_eq!(strip_block_num(b"/"), None);
    assert_eq!(strip_block_num(b""), None);
}

#[test]
fn path_parse_trailing_slash() {
    assert_eq!(strip_trailing_slash(b"/my/long/path/"),
               &b"my/long/path"[..]);
    assert_eq!(strip_trailing_slash(b"/my/long/path"), &b"my/long/path"[..]);
    assert_eq!(strip_trailing_slash(b"///"), &b"/"[..]);
    assert_eq!(strip_trailing_slash(b"//"), &b""[..]);
    assert_eq!(strip_trailing_slash(b"/"), &b""[..]);
}

#[test]
fn block_num_of_types() {
    assert_eq!(BlockType::MultivolSnapshot(3).block_num(), Some(3));
    assert_eq!(BlockType::MultivolSignature(7).block_num(), Some(7));
    assert_eq!(BlockType::Snapshot.block_num(), None);
    assert_eq!(BlockType::Deleted.block_num(), None);
}

#[test]
fn strip_block_num_plus_sign_and_overflow() {
    assert_eq!(strip_block_num(b"a/+7"), Some((&b"a/"[..], 7)));
    assert_eq!(strip_block_num(b"a/99999999999999999999999"), None);
}

#[test]
fn null_stream_has_block_zero_only() {
    let mut s = NullStream;
    assert_eq!(s.seek_to_block(0), Ok(()));
    assert_eq!(s.seek_to_block(1), Err(StreamError::NullStreamBlock(1)));
}

#[test]
fn snapshot_stream_seek() {
    let mut s = SnapshotStream::new(RawPath::from_bytes(b"largefile".to_vec()), (0, 0), 53);
    assert_eq!(s.seek_to_block(4), Ok(()));
    assert_eq!(s.seek_to_block(54), Err(StreamError::VolumeNotFound(54)));
    let st = s.read_start().unwrap();
    assert_eq!(st, BlockRead { n_found: 0, curr_block: 4 });
}

#[test]
fn snapshot_stream_reads_block_and_ahead() {
    let s = SnapshotStream::new(RawPath::from_bytes(b"largefile".to_vec()), (0, 0), 53);
    let st = BlockRead { n_found: 0, curr_block: 4 };
    // an entry before the path is passed over
    let (st, a) = s.read_step(st, Some(&b"snapshot/executable"[..]), false);
    assert_eq!(a, ReadAction::Skip);
    // a block of the path other than the current one is passed over
    let (st, a) = s.read_step(st, Some(&b"multivol_snapshot/largefile/3"[..]), false);
    assert_eq!(a, ReadAction::Skip);
    // the current block is read
    let (st, a) = s.read_step(st, Some(&b"multivol_snapshot/largefile/5"[..]), false);
    assert_eq!(a, ReadAction::ReadBlock);
    assert_eq!(st, BlockRead { n_found: 1, curr_block: 5 });
    // the following blocks are read ahead into the cache, unless cached
    let (st, a) = s.read_step(st, Some(&b"multivol_snapshot/largefile/6"[..]), false);
    assert_eq!(a, ReadAction::CacheBlock);
    let (st, a) = s.read_step(st, Some(&b"multivol_snapshot/largefile/7"[..]), true);
    assert_eq!(a, ReadAction::Keep);
    assert_eq!(st, BlockRead { n_found: 3, curr_block: 7 });
    // a bad entry after a block stops the reading
    let (_, a) = s.read_step(st, None, false);
    assert_eq!(a, ReadAction::Stop);
}

#[test]
fn snapshot_stream_stops_after_path() {
    let s = SnapshotStream::new(RawPath::from_bytes(b"b".to_vec()), (0, 0), 0);
    let st = BlockRead { n_found: 0, curr_block: 0 };
    let (st, a) = s.read_step(st, None, false);
    assert_eq!(a, ReadAction::Skip);
    let (st, a) = s.read_step(st, Some(&b"snapshot/c"[..]), false);
    assert_eq!(a, ReadAction::Stop);
    let mut s = s;
    assert_eq!(s.read_finish(st, 1), Err(StreamError::BlockNotFound(0, 1)));
}

#[test]
fn snapshot_stream_read_ahead_limit() {
    let s = SnapshotStream::new(RawPath::from_bytes(b"f".to_vec()), (0, 0), 100);
    let st = BlockRead { n_found: 10, curr_block: 20 };
    let (_, a) = s.read_step(st, Some(&b"multivol_snapshot/f/21"[..]), false);
    assert_eq!(a, ReadAction::Stop);
    let mut s = s;
    assert_eq!(s.read_finish(st, 2), Ok(()));
    assert_eq!(s.read_start(), Some(BlockRead { n_found: 0, curr_block: 20 }));
}
