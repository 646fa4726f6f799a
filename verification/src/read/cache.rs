//! A cache of the blocks read from volumes, which drops the least recently
//! used block when it is full.

use vstd::prelude::*;

verus! {

/// The largest size of a block in volume archives.
pub const BLOCK_SIZE: usize = 65536;

/// The identity of a block: the entry (file index, snapshot index) and the
/// block number.
pub type BlockId = ((usize, u8), usize);

#[verifier::external_type_specification]
#[verifier::external_body]
pub struct ExFnvHasher(fnv::FnvHasher);

#[verifier::external_type_specification]
#[verifier::external_body]
#[verifier::reject_recursive_types(H)]
pub struct ExBuildHasherDefault<H>(std::hash::BuildHasherDefault<H>);

#[verifier::external_type_specification]
#[verifier::external_body]
#[verifier::reject_recursive_types(K)]
#[verifier::reject_recursive_types(V)]
#[verifier::reject_recursive_types(S)]
pub struct ExLinkedHashMap<K, V, S>(linked_hash_map::LinkedHashMap<K, V, S>);

/// What a block index holds: blocks by id, from the least recently used to
/// the most recently used.
pub uninterp spec fn index_entries(
    m: linked_hash_map::LinkedHashMap<
        ((usize, u8), usize),
        Vec<u8>,
        std::hash::BuildHasherDefault<fnv::FnvHasher>,
    >,
) -> Seq<(((usize, u8), usize), Seq<u8>)>;

/// The position of a block in a sequence of blocks.
pub open spec fn key_index(e: Seq<(BlockId, Seq<u8>)>, k: BlockId) -> Option<int> {
    if exists|i: int| 0 <= i < e.len() && (#[trigger] e[i]).0 == k {
        Some(choose|i: int| 0 <= i < e.len() && (#[trigger] e[i]).0 == k)
    } else {
        None
    }
}

/// No block id occurs twice.
pub open spec fn distinct_keys(e: Seq<(BlockId, Seq<u8>)>) -> bool {
    forall|i: int, j: int| 0 <= i < j < e.len() ==> (#[trigger] e[i]).0 != (#[trigger] e[j]).0
}

/// Calls `LinkedHashMap::with_hasher` with the FNV hasher: an empty map.
#[verifier::external_body]
fn index_new() -> (r: linked_hash_map::LinkedHashMap<
    ((usize, u8), usize),
    Vec<u8>,
    std::hash::BuildHasherDefault<fnv::FnvHasher>,
>)
    ensures
        index_entries(r) == Seq::<(BlockId, Seq<u8>)>::empty(),
{
    linked_hash_map::LinkedHashMap::with_hasher(std::hash::BuildHasherDefault::<fnv::FnvHasher>::default())
}

/// Calls `LinkedHashMap::get`: the value of the key, leaving the order as
/// it is.
#[verifier::external_body]
fn index_get<'a>(
    m: &'a linked_hash_map::LinkedHashMap<
        ((usize, u8), usize),
        Vec<u8>,
        std::hash::BuildHasherDefault<fnv::FnvHasher>,
    >,
    k: BlockId,
) -> (r: Option<&'a Vec<u8>>)
    requires
        distinct_keys(index_entries(*m)),
    ensures
        match key_index(index_entries(*m), k) {
            Some(i) => r matches Some(v) && v@ == index_entries(*m)[i].1,
            None => r is None,
        },
{
    m.get(&k)
}

/// Calls `LinkedHashMap::get_refresh`: when the key is there, its entry
/// moves to the most recently used end; tells whether it was there.
#[verifier::external_body]
fn index_refresh(
    m: &mut linked_hash_map::LinkedHashMap<
        ((usize, u8), usize),
        Vec<u8>,
        std::hash::BuildHasherDefault<fnv::FnvHasher>,
    >,
    k: BlockId,
) -> (r: bool)
    requires
        distinct_keys(index_entries(*old(m))),
    ensures
        match key_index(index_entries(*old(m)), k) {
            Some(i) => r && index_entries(*final(m)) == index_entries(*old(m)).remove(i).push(
                index_entries(*old(m))[i],
            ),
            None => !r && index_entries(*final(m)) == index_entries(*old(m)),
        },
{
    m.get_refresh(&k).is_some()
}

/// Calls `LinkedHashMap::insert`: the entry goes to the most recently used
/// end, replacing the one of the same key; tells whether the key was there.
#[verifier::external_body]
fn index_insert(
    m: &mut linked_hash_map::LinkedHashMap<
        ((usize, u8), usize),
        Vec<u8>,
        std::hash::BuildHasherDefault<fnv::FnvHasher>,
    >,
    k: BlockId,
    v: Vec<u8>,
) -> (r: bool)
    requires
        distinct_keys(index_entries(*old(m))),
    ensures
        match key_index(index_entries(*old(m)), k) {
            Some(i) => r && index_entries(*final(m)) == index_entries(*old(m)).remove(i).push((k, v@)),
            None => !r && index_entries(*final(m)) == index_entries(*old(m)).push((k, v@)),
        },
{
    m.insert(k, v).is_some()
}

/// Calls `LinkedHashMap::pop_front`: takes out the least recently used
/// entry.
#[verifier::external_body]
fn index_pop_front(
    m: &mut linked_hash_map::LinkedHashMap<
        ((usize, u8), usize),
        Vec<u8>,
        std::hash::BuildHasherDefault<fnv::FnvHasher>,
    >,
) -> (r: Option<(BlockId, Vec<u8>)>)
    ensures
        index_entries(*old(m)).len() == 0 ==> r is None && index_entries(*final(m)) == index_entries(
            *old(m),
        ),
        index_entries(*old(m)).len() > 0 ==> {
            &&& r matches Some((k, v))
            &&& (k, v@) == index_entries(*old(m))[0]
            &&& index_entries(*final(m)) == index_entries(*old(m)).drop_first()
        },
{
    m.pop_front()
}

/// Calls `LinkedHashMap::len`: the number of entries.
#[verifier::external_body]
fn index_len(
    m: &linked_hash_map::LinkedHashMap<
        ((usize, u8), usize),
        Vec<u8>,
        std::hash::BuildHasherDefault<fnv::FnvHasher>,
    >,
) -> (r: usize)
    ensures
        r == index_entries(*m).len(),
{
    m.len()
}

/// Calls `LinkedHashMap::clear`: no entry is left.
#[verifier::external_body]
fn index_clear(
    m: &mut linked_hash_map::LinkedHashMap<
        ((usize, u8), usize),
        Vec<u8>,
        std::hash::BuildHasherDefault<fnv::FnvHasher>,
    >,
)
    ensures
        index_entries(*final(m)) == Seq::<(BlockId, Seq<u8>)>::empty(),
{
    m.clear()
}

/// A cache of blocks read from volumes, holding up to `max_blocks` blocks
/// (at least one): when it is full, the least recently used block makes
/// room for a new one.
pub struct BlockCache {
    index: linked_hash_map::LinkedHashMap<
        ((usize, u8), usize),
        Vec<u8>,
        std::hash::BuildHasherDefault<fnv::FnvHasher>,
    >,
    max_blocks: usize,
}

/// What a block cache holds: its blocks, from the least recently used, and
/// its size.
pub struct BlockCacheView {
    pub blocks: Seq<(BlockId, Seq<u8>)>,
    pub max_blocks: usize,
}

impl View for BlockCache {
    type V = BlockCacheView;

    closed spec fn view(&self) -> BlockCacheView {
        BlockCacheView { blocks: index_entries(self.index), max_blocks: self.max_blocks }
    }
}

/// The blocks have distinct ids and fit in a block.
pub open spec fn cache_wf(c: BlockCacheView) -> bool {
    &&& distinct_keys(c.blocks)
    &&& forall|i: int| 0 <= i < c.blocks.len() ==> (#[trigger] c.blocks[i]).1.len() <= BLOCK_SIZE
}

/// The cache after a block is written: nothing changes when the block is
/// there already; otherwise the block joins as the most recently used,
/// after the least recently used one has left a full cache.
pub open spec fn spec_cache_write(c: BlockCacheView, id: BlockId, data: Seq<u8>) -> BlockCacheView {
    if key_index(c.blocks, id) is Some {
        c
    } else if c.blocks.len() >= c.max_blocks && c.blocks.len() > 0 {
        BlockCacheView { blocks: c.blocks.drop_first().push((id, data)), ..c }
    } else {
        BlockCacheView { blocks: c.blocks.push((id, data)), ..c }
    }
}

/// The number of bytes that writing a buffer into a block copies: the
/// buffer, up to a whole block.
pub open spec fn block_len(buffer: Seq<u8>) -> nat {
    if buffer.len() <= BLOCK_SIZE {
        buffer.len()
    } else {
        BLOCK_SIZE as nat
    }
}

/// The bytes a block keeps of a buffer written into it. A block records its
/// length in 16 bits, so a whole block (65536 bytes) records length zero
/// and keeps no bytes to read back.
pub open spec fn block_data(buffer: Seq<u8>) -> Seq<u8> {
    if buffer.len() < BLOCK_SIZE {
        buffer
    } else {
        Seq::empty()
    }
}

proof fn lemma_key_index(e: Seq<(BlockId, Seq<u8>)>, k: BlockId)
    requires
        distinct_keys(e),
    ensures
        key_index(e, k) matches Some(i) ==> 0 <= i < e.len() && e[i].0 == k,
        key_index(e, k) is None ==> forall|i: int| 0 <= i < e.len() ==> (#[trigger] e[i]).0 != k,
{
}

impl BlockCache {
    /// An empty cache of up to `max_blocks` blocks.
    pub fn new(max_blocks: usize) -> (r: Self)
        ensures
            r@.blocks == Seq::<(BlockId, Seq<u8>)>::empty(),
            r@.max_blocks == max_blocks,
            cache_wf(r@),
    {
        BlockCache { index: index_new(), max_blocks }
    }

    /// Whether the block is in the cache.
    pub fn cached(&self, id: BlockId) -> (r: bool)
        requires
            cache_wf(self@),
        ensures
            r == key_index(self@.blocks, id) is Some,
    {
        index_get(&self.index, id).is_some()
    }

    /// The number of blocks in the cache.
    pub fn size(&self) -> (r: usize)
        ensures
            r == self@.blocks.len(),
    {
        index_len(&self.index)
    }

    /// Reads a cached block into the buffer, as much of it as fits, and
    /// makes it the most recently used; gives the number of bytes read, or
    /// `None` when the block is not cached.
    pub fn read(&mut self, id: BlockId, buffer: &mut [u8]) -> (r: Option<usize>)
        requires
            cache_wf(old(self)@),
        ensures
            cache_wf(final(self)@),
            final(self)@.max_blocks == old(self)@.max_blocks,
            match key_index(old(self)@.blocks, id) {
                Some(i) => {
                    let data = old(self)@.blocks[i].1;
                    let n = if data.len() < old(buffer)@.len() {
                        data.len()
                    } else {
                        old(buffer)@.len() as nat
                    };
                    &&& r == Some(n as usize)
                    &&& final(buffer)@ == data.subrange(0, n as int) + old(buffer)@.subrange(
                        n as int,
                        old(buffer)@.len() as int,
                    )
                    &&& final(self)@.blocks == old(self)@.blocks.remove(i).push(old(self)@.blocks[i])
                },
                None => r is None && final(self)@ == old(self)@ && final(buffer)@ == old(buffer)@,
            },
    {
        let ghost blocks = self@.blocks;
        proof {
            lemma_key_index(blocks, id);
        }
        if !index_refresh(&mut self.index, id) {
            return None;
        }
        let ghost i = key_index(blocks, id)->0;
        proof {
            let nb = self@.blocks;
            assert(nb.last() == blocks[i]);
            assert forall|a: int, b: int| 0 <= a < b < nb.len() implies (#[trigger] nb[a]).0 != (
            #[trigger] nb[b]).0 by {
                if b == nb.len() - 1 {
                    if a < i {
                        assert(nb[a] == blocks[a]);
                    } else {
                        assert(nb[a] == blocks[a + 1]);
                    }
                } else {
                    let a2 = if a < i { a } else { a + 1 };
                    let b2 = if b < i { b } else { b + 1 };
                    assert(nb[a] == blocks[a2]);
                    assert(nb[b] == blocks[b2]);
                }
            }
            assert forall|k: int| 0 <= k < nb.len() implies (#[trigger] nb[k]).1.len() <= BLOCK_SIZE by {
                if k == nb.len() - 1 {
                } else if k < i {
                    assert(nb[k] == blocks[k]);
                } else {
                    assert(nb[k] == blocks[k + 1]);
                }
            }
            lemma_key_index(nb, id);
            assert(nb[nb.len() - 1].0 == id);
            assert(key_index(nb, id) == Some(nb.len() - 1));
        }
        let block = match index_get(&self.index, id) {
            Some(b) => b,
            None => {
                return None;
            },
        };
        let n = if block.len() < buffer.len() {
            block.len()
        } else {
            buffer.len()
        };
        let mut k: usize = 0;
        while k < n
            invariant
                k <= n,
                n <= block@.len(),
                n <= old(buffer)@.len(),
                buffer@.len() == old(buffer)@.len(),
                forall|j: int| 0 <= j < k ==> buffer@[j] == block@[j],
                forall|j: int| k <= j < buffer@.len() ==> buffer@[j] == old(buffer)@[j],
            decreases n - k,
        {
            buffer[k] = block[k];
            k = k + 1;
        }
        assert(buffer@ =~= block@.subrange(0, n as int) + old(buffer)@.subrange(n as int, old(buffer)@.len() as int));
        Some(n)
    }

    /// Writes a block into the cache, keeping at most `BLOCK_SIZE` bytes of
    /// the buffer (see `spec_cache_write`); gives the number of bytes kept,
    /// or `None` when the block was cached already.
    pub fn write(&mut self, id: BlockId, buffer: &[u8]) -> (r: Option<usize>)
        requires
            cache_wf(old(self)@),
        ensures
            cache_wf(final(self)@),
            final(self)@ == spec_cache_write(old(self)@, id, block_data(buffer@)),
            key_index(old(self)@.blocks, id) is Some ==> r is None,
            key_index(old(self)@.blocks, id) is None ==> r == Some(block_len(buffer@) as usize),
    {
        let ghost blocks = self@.blocks;
        proof {
            lemma_key_index(blocks, id);
        }
        if index_get(&self.index, id).is_some() {
            return None;
        }
        let len = if buffer.len() < BLOCK_SIZE {
            buffer.len()
        } else {
            BLOCK_SIZE
        };
        let kept = if len < BLOCK_SIZE {
            len
        } else {
            0
        };
        let data = crate::bytes::slice_to_vec(&buffer[0..kept]);
        assert(data@ =~= block_data(buffer@));
        let n = index_len(&self.index);
        if n >= self.max_blocks && n > 0 {
            let _ = index_pop_front(&mut self.index);
            proof {
                let d = self@.blocks;
                assert(d =~= blocks.drop_first());
                assert(distinct_keys(d)) by {
                    assert forall|a: int, b: int| 0 <= a < b < d.len() implies (#[trigger] d[a]).0 != (
                    #[trigger] d[b]).0 by {
                        assert(d[a] == blocks[a + 1]);
                        assert(d[b] == blocks[b + 1]);
                    }
                }
                assert forall|k: int| 0 <= k < d.len() implies (#[trigger] d[k]).0 != id by {
                    assert(d[k] == blocks[k + 1]);
                }
                lemma_key_index(d, id);
            }
        }
        let ghost before = self@.blocks;
        let _ = index_insert(&mut self.index, id, data);
        proof {
            let nb = self@.blocks;
            assert(nb =~= before.push((id, data@)));
            assert forall|a: int, b: int| 0 <= a < b < nb.len() implies (#[trigger] nb[a]).0 != (
            #[trigger] nb[b]).0 by {
                if b == nb.len() - 1 {
                    assert(nb[a] == before[a]);
                } else {
                    assert(nb[a] == before[a]);
                    assert(nb[b] == before[b]);
                }
            }
            assert forall|k: int| 0 <= k < nb.len() implies (#[trigger] nb[k]).1.len() <= BLOCK_SIZE by {
                if k < nb.len() - 1 {
                    assert(nb[k] == before[k]);
                }
            }
        }
        Some(len)
    }

    /// Empties the cache.
    pub fn clear(&mut self)
        ensures
            final(self)@.blocks == Seq::<(BlockId, Seq<u8>)>::empty(),
            final(self)@.max_blocks == old(self)@.max_blocks,
            cache_wf(final(self)@),
    {
        index_clear(&mut self.index)
    }
}

/// A block written into the cache can be read back: right after it was
/// written it is cached, with the data kept.
pub proof fn law_read_after_write(c: BlockCacheView, id: BlockId, data: Seq<u8>)
    requires
        cache_wf(c),
        key_index(c.blocks, id) is None,
    ensures
        ({
            let c2 = spec_cache_write(c, id, data);
            &&& key_index(c2.blocks, id) is Some
            &&& c2.blocks[key_index(c2.blocks, id)->0].1 == data
        }),
{
    let c2 = spec_cache_write(c, id, data);
    let last = c2.blocks.len() - 1;
    assert(c2.blocks[last] == (id, data));
    lemma_key_index(c.blocks, id);
    assert(distinct_keys(c2.blocks)) by {
        assert forall|a: int, b: int| 0 <= a < b < c2.blocks.len() implies (#[trigger] c2.blocks[a]).0 != (
        #[trigger] c2.blocks[b]).0 by {
            if c.blocks.len() >= c.max_blocks && c.blocks.len() > 0 {
                assert(c2.blocks[a] == c.blocks[a + 1]);
                if b < last {
                    assert(c2.blocks[b] == c.blocks[b + 1]);
                }
            } else {
                assert(c2.blocks[a] == c.blocks[a]);
                if b < last {
                    assert(c2.blocks[b] == c.blocks[b]);
                }
            }
        }
    }
    lemma_key_index(c2.blocks, id);
}

/// A cache never holds more than `max_blocks` blocks, or one block when
/// `max_blocks` is zero: writing keeps that bound.
pub proof fn law_cache_bound(c: BlockCacheView, id: BlockId, data: Seq<u8>)
    requires
        c.blocks.len() <= if c.max_blocks > 0 { c.max_blocks as nat } else { 1 },
    ensures
        spec_cache_write(c, id, data).blocks.len() <= if c.max_blocks > 0 { c.max_blocks as nat } else { 1 },
        spec_cache_write(c, id, data).max_blocks == c.max_blocks,
{
}

/// Writing a new block into a full cache drops the least recently used
/// block and keeps the others in their order.
pub proof fn law_evicts_least_recent(c: BlockCacheView, id: BlockId, data: Seq<u8>)
    requires
        key_index(c.blocks, id) is None,
        c.blocks.len() >= c.max_blocks,
        c.blocks.len() > 0,
    ensures
        spec_cache_write(c, id, data).blocks == c.blocks.subrange(1, c.blocks.len() as int).push((id, data)),
{
    assert(c.blocks.drop_first() =~= c.blocks.subrange(1, c.blocks.len() as int));
}

} // verus!
