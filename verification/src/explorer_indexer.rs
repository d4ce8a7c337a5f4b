//! The explorer indexer's sync decisions: where the reorg scan starts, which
//! heights the next batch covers, and the highest block that the index and
//! the node still agree on. The database and RPC calls stand outside the
//! library.
use vstd::prelude::*;

verus! {

/// A block header as the node's RPC returns it.
pub struct RpcHeader {
    pub hash: String,
    pub prev_hash: String,
    pub merkle_root: String,
    pub time: u64,
    pub bits: String,
    pub nonce: u64,
    pub version: u32,
}

/// A block as the node's RPC returns it.
pub struct RpcBlock {
    pub height: i64,
    pub miner_address: Option<String>,
    pub tx_hex: Vec<String>,
    pub header: RpcHeader,
    pub auxpow_hex: Option<String>,
}

/// The hash the index holds for `height`: the last pair with that height.
pub open spec fn indexed_hash(v: Seq<(i64, String)>, height: i64) -> Option<Seq<char>>
    decreases v.len(),
{
    if v.len() == 0 {
        None
    } else if v.last().0 == height {
        Some(v.last().1@)
    } else {
        indexed_hash(v.drop_last(), height)
    }
}

/// Whether the index holds the node's block.
pub open spec fn agrees(v: Seq<(i64, String)>, b: RpcBlock) -> bool {
    indexed_hash(v, b.height) == Some(b.header.hash@)
}

fn lookup(v: &[(i64, String)], height: i64) -> (r: Option<usize>)
    ensures
        match r {
            Some(j) => j < v@.len() && indexed_hash(v@, height) == Some(v@[j as int].1@),
            None => indexed_hash(v@, height) is None,
        },
{
    let mut i: usize = v.len();
    assert(v@.take(v@.len() as int) =~= v@);
    while i > 0
        invariant
            i <= v@.len(),
            indexed_hash(v@, height) == indexed_hash(v@.take(i as int), height),
        decreases i,
    {
        assert(v@.take(i as int).drop_last() =~= v@.take(i - 1));
        if v[i - 1].0 == height {
            return Some(i - 1);
        }
        i = i - 1;
    }
    None
}

/// The highest (last-listed) node block that the index holds with the same
/// hash, or `None`: the reorg scan then failed to find a common ancestor.
pub fn find_common_ancestor(indexed_hashes: &[(i64, String)], node_blocks: &[RpcBlock]) -> (r:
    Option<(i64, String)>)
    ensures
        match r {
            Some((h, hash)) => exists|i: int|
                #![trigger node_blocks@[i]]
                0 <= i < node_blocks@.len() && agrees(indexed_hashes@, node_blocks@[i]) && h
                    == node_blocks@[i].height && hash@ == node_blocks@[i].header.hash@ && forall|
                    k: int,
                |
                    i < k < node_blocks@.len() ==> !agrees(indexed_hashes@, #[trigger] node_blocks@[k]),
            None => forall|k: int|
                0 <= k < node_blocks@.len() ==> !agrees(indexed_hashes@, #[trigger] node_blocks@[k]),
        },
{
    let mut i: usize = node_blocks.len();
    while i > 0
        invariant
            i <= node_blocks@.len(),
            forall|k: int|
                i <= k < node_blocks@.len() ==> !agrees(indexed_hashes@, #[trigger] node_blocks@[k]),
        decreases i,
    {
        let b = &node_blocks[i - 1];
        match lookup(indexed_hashes, b.height) {
            Some(j) => {
                if indexed_hashes[j].1 == b.header.hash {
                    let hash = b.header.hash.clone();
                    assert(agrees(indexed_hashes@, node_blocks@[i - 1]));
                    return Some((b.height, hash));
                }
            },
            None => {},
        }
        i = i - 1;
    }
    None
}

/// Where the reorg scan starts: `depth` below the synced height, not below 0.
pub fn reorg_scan_from(synced_height: i64, depth: u64) -> (s: i64)
    requires
        synced_height >= 0,
    ensures
        s == if synced_height - depth > 0 { synced_height - depth } else { 0 },
{
    if depth >= synced_height as u64 {
        0
    } else {
        synced_height - depth as i64
    }
}

/// How many node blocks the reorg scan fetches: the window, at least one.
pub fn reorg_scan_count(scan_from: i64, synced_height: i64) -> (c: u64)
    requires
        0 <= scan_from <= synced_height,
    ensures
        c == synced_height - scan_from + 1,
{
    ((synced_height - scan_from) as u64) + 1
}

/// The next batch after syncing to `synced_height` (-1 when nothing is
/// indexed) on a chain of height `chain_height`: `None` when caught up, else
/// the first height and how many blocks, at most `batch_size`.
pub fn next_batch(synced_height: i64, chain_height: i64, batch_size: u64) -> (r: Option<(i64, u64)>)
    requires
        synced_height >= -1,
        chain_height >= 0,
    ensures
        match r {
            None => synced_height >= chain_height,
            Some((from, count)) => synced_height < chain_height && from == synced_height + 1 && count
                == if chain_height - from + 1 < batch_size {
                    chain_height - from + 1
                } else {
                    batch_size as int
                },
        },
{
    if synced_height >= chain_height {
        return None;
    }
    let from = synced_height + 1;
    let span = ((chain_height - from) as u64) + 1;
    let count = if span < batch_size {
        span
    } else {
        batch_size
    };
    Some((from, count))
}

} // verus!
