//! The node and explorer status records that the pool API reads. Fetching
//! and decoding them stands outside the library; a field the reply leaves
//! out reads as its default.
use vstd::prelude::*;

verus! {

/// The best header the node knows.
#[derive(Clone, Debug, PartialEq, Eq)]
pub struct BestHeaderTip {
    pub height: u64,
    pub hash: String,
}

impl Default for BestHeaderTip {
    fn default() -> (t: BestHeaderTip)
        ensures
            t.height == 0 && t.hash@.len() == 0,
    {
        BestHeaderTip { height: 0, hash: String::new() }
    }
}

/// The node's `/status` reply.
#[derive(Clone, Debug, PartialEq, Eq)]
pub struct NodeStatus {
    pub height: u64,
    pub peer_count: u64,
    pub best_header_tip: BestHeaderTip,
    pub persisted_height: u64,
}

impl Default for NodeStatus {
    fn default() -> (s: NodeStatus)
        ensures
            s.height == 0 && s.peer_count == 0 && s.persisted_height == 0,
            s.best_header_tip.height == 0 && s.best_header_tip.hash@.len() == 0,
    {
        NodeStatus { height: 0, peer_count: 0, best_header_tip: BestHeaderTip::default(), persisted_height: 0 }
    }
}

/// A relay's tip (the node's BTC or LTC header relay).
#[derive(Clone, Debug, PartialEq, Eq)]
pub struct RelayTip {
    pub active: bool,
    pub tip_height: u64,
    pub tip_hash: String,
    pub tip_time: u64,
    pub anchor_height: u64,
}

impl Default for RelayTip {
    fn default() -> (t: RelayTip)
        ensures
            !t.active && t.tip_height == 0 && t.tip_hash@.len() == 0 && t.tip_time == 0
                && t.anchor_height == 0,
    {
        RelayTip { active: false, tip_height: 0, tip_hash: String::new(), tip_time: 0, anchor_height: 0 }
    }
}

/// A block header as the explorer lists it.
#[derive(Clone, Debug, PartialEq, Eq)]
pub struct ExplorerHeader {
    pub time: u64,
    pub hash: String,
    pub bits: String,
}

impl Default for ExplorerHeader {
    fn default() -> (h: ExplorerHeader)
        ensures
            h.time == 0 && h.hash@.len() == 0 && h.bits@.len() == 0,
    {
        ExplorerHeader { time: 0, hash: String::new(), bits: String::new() }
    }
}

/// An address's balances as the explorer reports them.
#[derive(Clone, Debug, PartialEq, Eq)]
pub struct AddressBalance {
    pub mined_blocks: u64,
    pub mined_balance: u64,
    pub balance: u64,
}

impl Default for AddressBalance {
    fn default() -> (b: AddressBalance)
        ensures
            b.mined_blocks == 0 && b.mined_balance == 0 && b.balance == 0,
    {
        AddressBalance { mined_blocks: 0, mined_balance: 0, balance: 0 }
    }
}

/// The explorer's address record.
#[derive(Clone, Debug, PartialEq, Eq)]
pub struct ExplorerAddress {
    pub balance: AddressBalance,
}

impl Default for ExplorerAddress {
    fn default() -> (a: ExplorerAddress)
        ensures
            a.balance.mined_blocks == 0 && a.balance.mined_balance == 0 && a.balance.balance == 0,
    {
        ExplorerAddress { balance: AddressBalance::default() }
    }
}

/// Whether an HTTP status counts as reachable: anything below 500.
pub fn status_reachable(status: u16) -> (b: bool)
    ensures
        b == (status < 500),
{
    status < 500
}

} // verus!
