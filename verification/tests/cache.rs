use ruplicity::read::cache::{BlockCache, BLOCK_SIZE};

#[test]
fn write_read() {
    let mut cache = BlockCache::new(2);
    let id = ((0, 0), 0);
    let mut buf = vec![0; 5];

    assert_eq!(cache.read(id, &mut buf), None);
    assert_eq!(cache.write(id, b"pippo"), Some(5));
    assert_eq!(cache.read(id, &mut buf), Some(5));
    assert_eq!(&buf, b"pippo");

    // test reading bigger buffer
    buf.resize(10, b'0');
    assert_eq!(cache.read(id, &mut buf), Some(5));
}

#[test]
fn max_blocks() {
    let mut cache = BlockCache::new(2);
    let id0 = ((0, 0), 0);
    let id1 = ((0, 0), 1);
    let mut buf = vec![0; 3];

    assert_eq!(cache.write(id0, b"id0"), Some(3));
    assert_eq!(cache.write(id1, b"id1"), Some(3));
    assert_eq!(cache.read(id0, &mut buf), Some(3));
    assert_eq!(&buf, b"id0");
    assert_eq!(cache.read(id1, &mut buf), Some(3));
    assert_eq!(&buf, b"id1");
}

#[test]
fn full_cache() {
    let mut cache = BlockCache::new(2);
    let id0 = ((0, 0), 0);
    let id1 = ((0, 0), 1);
    let id2 = ((0, 0), 2);
    let mut buf = vec![0; 3];

    assert_eq!(cache.write(id0, b"id0"), Some(3));
    assert_eq!(cache.write(id1, b"id1"), Some(3));
    assert_eq!(cache.write(id2, b"id2"), Some(3));
    // id0 disappeared
    assert_eq!(cache.read(id0, &mut buf), None);
    // id1 and id2 are there
    assert_eq!(cache.read(id1, &mut buf), Some(3));
    assert_eq!(&buf, b"id1");
    assert_eq!(cache.read(id2, &mut buf), Some(3));
    assert_eq!(&buf, b"id2");
}

#[test]
fn read_refresh_usage() {
    let mut cache = BlockCache::new(2);
    let id0 = ((0, 0), 0);
    let id1 = ((0, 0), 1);
    let id2 = ((0, 0), 2);
    let mut buf = vec![0; 3];

    assert_eq!(cache.write(id0, b"id0"), Some(3));
    assert_eq!(cache.write(id1, b"id1"), Some(3));
    // refresh id0, so id1 becomes less used
    assert_eq!(cache.read(id0, &mut buf), Some(3));
    // write another
    assert_eq!(cache.write(id2, b"id2"), Some(3));
    // id1 disappeared
    assert_eq!(cache.read(id1, &mut buf), None);
    // id0 and id2 are there
    assert_eq!(cache.read(id0, &mut buf), Some(3));
    assert_eq!(&buf, b"id0");
    assert_eq!(cache.read(id2, &mut buf), Some(3));
    assert_eq!(&buf, b"id2");
}

#[test]
fn send_sync() {
    fn is_send<T: Send>(_: T) {}
    fn is_sync<T: Sync>(_: T) {}

    let cache = BlockCache::new(1);
    is_sync(&cache);
    is_send(&cache);
    is_send(cache);
}

#[test]
fn write_existing_keeps_first() {
    let mut cache = BlockCache::new(4);
    let id = ((1, 2), 3);
    assert_eq!(cache.write(id, b"first"), Some(5));
    assert_eq!(cache.write(id, b"second"), None);
    let mut buf = vec![0; 8];
    assert_eq!(cache.read(id, &mut buf), Some(5));
    assert_eq!(&buf[..5], b"first");
    assert_eq!(&buf[5..], &[0, 0, 0]);
    assert!(cache.cached(id));
    assert_eq!(cache.size(), 1);
}

#[test]
fn block_is_truncated_and_read_is_bounded() {
    let mut cache = BlockCache::new(2);
    let id = ((0, 0), 0);
    let almost = vec![7u8; BLOCK_SIZE - 1];
    assert_eq!(cache.write(id, &almost), Some(BLOCK_SIZE - 1));
    let mut small = vec![0; 4];
    assert_eq!(cache.read(id, &mut small), Some(4));
    assert_eq!(small, vec![7, 7, 7, 7]);
    // a whole block records length zero in its 16 bits: nothing is read back
    let full = ((0, 0), 1);
    let big = vec![7u8; BLOCK_SIZE + 10];
    assert_eq!(cache.write(full, &big), Some(BLOCK_SIZE));
    let mut small = vec![0; 4];
    assert_eq!(cache.read(full, &mut small), Some(0));
    assert_eq!(small, vec![0, 0, 0, 0]);
}

#[test]
fn zero_size_cache_keeps_one_block() {
    let mut cache = BlockCache::new(0);
    assert_eq!(cache.write(((0, 0), 0), b"a"), Some(1));
    assert_eq!(cache.size(), 1);
    assert_eq!(cache.write(((0, 0), 1), b"b"), Some(1));
    assert_eq!(cache.size(), 1);
    assert!(!cache.cached(((0, 0), 0)));
    cache.clear();
    assert_eq!(cache.size(), 0);
}
