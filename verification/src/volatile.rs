use vstd::prelude::*;

use crate::tx::Block;
use crate::tx::BlockHash;
use crate::tx::DatumHash;
use crate::tx::TxHash;
use crate::tx::seq_views;

verus! {

/// Mathematical value of a [`VolatileBlock`].
#[verifier::ext_equal]
pub struct VolatileBlockV {
    pub hash: Seq<u8>,
    pub number: u64,
    pub slot: u64,
    pub txs: Seq<Seq<u8>>,
    pub datums: Seq<Seq<u8>>,
}

/// A lightweight receipt of one applied block: its identity plus the
/// hashes of the transactions and datums that were kept, so a rollback
/// can re-find the records it has to undo.
pub struct VolatileBlock {
    pub hash: BlockHash,
    pub number: u64,
    pub slot: u64,
    pub txs: Vec<TxHash>,
    pub datums: Vec<DatumHash>,
}

impl View for VolatileBlock {
    type V = VolatileBlockV;

    open spec fn view(&self) -> VolatileBlockV {
        VolatileBlockV {
            hash: self.hash@,
            number: self.number,
            slot: self.slot,
            txs: seq_views(self.txs@),
            datums: seq_views(self.datums@),
        }
    }
}

impl VolatileBlock {
    /// Build the receipt of a block from its identity and the hashes the
    /// indexers asked the engine to keep.
    pub fn parse(block: &Block, txs: Vec<TxHash>, datums: Vec<DatumHash>) -> (r: Self)
        ensures
            r@.hash == block@.hash,
            r@.number == block@.number,
            r@.slot == block@.slot,
            r@.txs == seq_views(txs@),
            r@.datums == seq_views(datums@),
    {
        VolatileBlock {
            hash: block.hash.clone(),
            number: block.number,
            slot: block.slot,
            txs,
            datums,
        }
    }
}

fn hash_vec_dup(v: &Vec<TxHash>) -> (r: Vec<TxHash>)
    ensures
        seq_views(r@) == seq_views(v@),
{
    let mut r: Vec<TxHash> = Vec::new();
    let n: usize = v.len();
    let mut i: usize = 0;
    while i < n
        invariant
            n == v@.len(),
            0 <= i <= n,
            r@.len() == i,
            forall|j: int| 0 <= j < i ==> (#[trigger] r@[j])@ == v@[j]@,
        decreases n - i,
    {
        r.push(v[i].clone());
        i = i + 1;
    }
    proof {
        assert(seq_views(r@) =~= seq_views(v@));
    }
    r
}

impl Clone for VolatileBlock {
    fn clone(&self) -> (r: Self)
        ensures
            r@ == self@,
    {
        VolatileBlock {
            hash: self.hash.clone(),
            number: self.number,
            slot: self.slot,
            txs: hash_vec_dup(&self.txs),
            datums: hash_vec_dup(&self.datums),
        }
    }
}

} // verus!
