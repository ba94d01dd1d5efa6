use vstd::prelude::*;

use crate::db::DbV;
use crate::db::fwd_fresh_block;
use crate::db::fwd_fresh_txs;
use crate::db::fwd_monotonic;
use crate::db::list_has;
use crate::db::spec_can_rollback;
use crate::db::spec_rollback;
use crate::db::spec_trim;
use crate::db::spec_undo_last;
use crate::db::suffix_keys;
use crate::db::lemma_suffix_keys;
use crate::db::lemma_trim_inv;
use crate::indexer::Indexer;
use crate::point::PointV;
use crate::tx::BlockV;

verus! {

/// Spine consistency: in every reachable store state, each untrimmed
/// block body is keyed by its own hash and anchored on the spine at its
/// own slot, and every transaction hash a body lists is present in the
/// transaction table.
pub proof fn lemma_spine_consistency(d: DbV)
    requires
        d.inv(),
    ensures
        d.blocks_linked(),
        d.block_txs_present(),
{
}

/// Monotone chronology: in every reachable store state the spine's
/// slots strictly increase, so a successful forward sequence appends
/// strictly increasing keys.
pub proof fn lemma_monotone_chronology(d: DbV)
    requires
        d.inv(),
    ensures
        d.slots_sorted(),
        forall|i: int, j: int|
            0 <= i < j < d.slots.len() ==> (#[trigger] d.slots[i]).0 < (#[trigger] d.slots[j]).0,
{
}

/// Tip equality: the tip is `Specific(max slot, its hash)` taken from
/// the spine, or `Origin` exactly when the spine is empty.
pub proof fn lemma_tip_equality(d: DbV)
    requires
        d.inv(),
    ensures
        d.tip() is Origin <==> d.slots.len() == 0,
        match d.tip() {
            PointV::Origin => d.slots.len() == 0,
            PointV::Specific(s, h) => d.slots.last() == (s, h) && forall|i: int|
                0 <= i < d.slots.len() ==> (#[trigger] d.slots[i]).0 <= s,
        },
{
    if d.slots.len() > 0 {
        let s = d.slots.last().0;
        assert forall|i: int| 0 <= i < d.slots.len() implies (#[trigger] d.slots[i]).0 <= s by {
            if i < d.slots.len() - 1 {
                assert(d.slots[i].0 < d.slots[d.slots.len() - 1].0);
            }
        }
    }
}

/// Round trip: accepting a block and then rolling back to the previous
/// tip restores the spine and both volatile tables exactly. When the
/// previous tip was a specific point the whole store state returns,
/// recorded identity list included; from the origin, the rollback is a
/// wipe and the spine and tables were empty anyway.
pub proof fn lemma_round_trip(d: DbV, p: DbV, b: BlockV)
    requires
        d.inv(),
        fwd_monotonic(d, b),
        fwd_fresh_block(d, b),
        fwd_fresh_txs(d, b),
        crate::db::spec_forward_rel(d, p, b),
    ensures
        match d.tip() {
            PointV::Origin => DbV::cleared().slots == d.slots && DbV::cleared().blocks == d.blocks
                && DbV::cleared().txs == d.txs,
            PointV::Specific(s, _) => spec_can_rollback(p, s) && spec_rollback(p, s) == d,
        },
{
    let bh = b.hash;
    let body = p.blocks[bh];
    match d.tip() {
        PointV::Origin => {
            assert(d.slots =~= DbV::cleared().slots);
            assert forall|h: Seq<u8>| true implies !d.blocks.contains_key(h) by {
                if d.blocks.contains_key(h) {
                    let i = choose|i: int|
                        0 <= i < d.slots.len() && (#[trigger] d.slots[i]).0 == d.blocks[h].slot
                            && d.slots[i].1 == h;
                }
            }
            assert(d.blocks =~= DbV::cleared().blocks);
            assert forall|t: Seq<u8>| true implies !d.txs.contains_key(t) by {
                if d.txs.contains_key(t) {
                    let (h, k) = choose|h: Seq<u8>, k: int|
                        #![trigger d.blocks[h].txs[k]]
                        d.blocks.contains_key(h) && 0 <= k < d.blocks[h].txs.len()
                            && d.blocks[h].txs[k] == t;
                }
            }
            assert(d.txs =~= DbV::cleared().txs);
        },
        PointV::Specific(s, _) => {
            assert(!d.blocks.contains_key(bh)) by {
                if d.blocks.contains_key(bh) {
                    let i = choose|i: int|
                        0 <= i < d.slots.len() && (#[trigger] d.slots[i]).0 == d.blocks[bh].slot
                            && d.slots[i].1 == bh;
                    assert(d.slots[i].1 != b.hash);
                }
            }
            let u = spec_undo_last(p);
            assert(p.slots.last() == (b.slot, bh));
            assert(u.slots =~= d.slots);
            assert(u.blocks =~= d.blocks);
            lemma_suffix_keys(body.txs, 0);
            assert forall|t: Seq<u8>| true implies u.txs.contains_key(t) == d.txs.contains_key(
                t,
            ) by {
                if d.txs.contains_key(t) {
                    assert(p.txs.contains_key(t) && p.txs[t] == d.txs[t]);
                    assert(!suffix_keys(body.txs, 0).contains(t)) by {
                        if suffix_keys(body.txs, 0).contains(t) {
                            let k = choose|k: int|
                                0 <= k < body.txs.len() && body.txs[k] == t;
                            assert(crate::db::kept_tx_from(p, b, body.txs[k]));
                            let i = choose|i: int|
                                0 <= i < b.txs.len() && (#[trigger] b.txs[i]).hash == t
                                    && p.txs.contains_key(t) && p.txs[t] == b.txs[i];
                            assert(!d.txs.contains_key(b.txs[i].hash));
                        }
                    }
                }
                if u.txs.contains_key(t) && !d.txs.contains_key(t) {
                    assert(p.txs.contains_key(t));
                    assert(list_has(body.txs, t));
                    let k = choose|k: int| 0 <= k < body.txs.len() && body.txs[k] == t;
                    assert(suffix_keys(body.txs, 0).contains(t));
                }
            }
            assert forall|t: Seq<u8>| u.txs.contains_key(t) implies u.txs[t] == d.txs[t] by {
                assert(p.txs[t] == d.txs[t]);
            }
            assert(u.txs =~= d.txs);
            assert(u =~= d);
            assert(p.slots.last().0 == b.slot && b.slot > s);
            assert(p.blocks.contains_key(p.slots.last().1));
            assert(spec_rollback(p, s) == spec_rollback(u, s));
            assert(d.slots.last().0 == s);
            assert(spec_rollback(d, s) == d);
            assert(spec_can_rollback(d, s));
        },
    }
}

/// Trim preserves queryability: after a trim the spine, the tip and the
/// recorded identity list are unchanged; every surviving body and
/// transaction is exactly what it was; the bodies of the newest
/// `kcap` spine entries all survive; and the invariant still holds.
/// Indexer tables are untouched by construction: trimming never calls
/// an indexer.
pub proof fn lemma_trim_preserves(d: DbV, kcap: int)
    requires
        d.inv(),
        0 <= kcap,
    ensures
        spec_trim(d, kcap).slots == d.slots,
        spec_trim(d, kcap).tip() == d.tip(),
        spec_trim(d, kcap).ids == d.ids,
        spec_trim(d, kcap).inv(),
        forall|h: Seq<u8>| #[trigger]
            spec_trim(d, kcap).blocks.contains_key(h) ==> d.blocks.contains_key(h) && spec_trim(
                d,
                kcap,
            ).blocks[h] == d.blocks[h],
        forall|t: Seq<u8>| #[trigger]
            spec_trim(d, kcap).txs.contains_key(t) ==> d.txs.contains_key(t) && spec_trim(
                d,
                kcap,
            ).txs[t] == d.txs[t],
        forall|i: int|
            d.slots.len() - kcap <= i < d.slots.len() && d.blocks.contains_key(
                (#[trigger] d.slots[i]).1,
            ) ==> spec_trim(d, kcap).blocks.contains_key(d.slots[i].1),
{
    let cut = d.slots.len() - kcap;
    if cut < 0 {
        lemma_trim_inv(d, 0);
        assert forall|h: Seq<u8>| true implies !crate::db::hash_in_range(d, 0, cut, h) by {}
        assert(spec_trim(d, kcap).blocks =~= crate::db::trim_upto(d, 0, 0).blocks);
        assert(spec_trim(d, kcap).txs =~= crate::db::trim_upto(d, 0, 0).txs);
        assert(spec_trim(d, kcap) =~= crate::db::trim_upto(d, 0, 0));
    } else {
        lemma_trim_inv(d, cut);
    }
    assert forall|i: int|
        d.slots.len() - kcap <= i < d.slots.len() && d.blocks.contains_key(
            (#[trigger] d.slots[i]).1,
        ) implies spec_trim(d, kcap).blocks.contains_key(d.slots[i].1) by {
        assert(!crate::db::hash_in_range(d, 0, cut, d.slots[i].1)) by {
            if crate::db::hash_in_range(d, 0, cut, d.slots[i].1) {
                let i2 = choose|i2: int|
                    0 <= i2 < cut && i2 < d.slots.len() && (#[trigger] d.slots[i2]).1
                        == d.slots[i].1;
                assert(d.slots[i2].1 != d.slots[i].1);
            }
        }
    }
}

/// Rolling back to the origin reaches exactly the state a clear
/// reaches.
pub proof fn lemma_rollback_origin_equals_clear(d: DbV)
    ensures
        crate::db::spec_roll_backward(d, PointV::Origin) == DbV::cleared(),
{
}

/// Rolling back to a point at or past the tip is a complete no-op:
/// the whole run finishes at once, touching neither the store nor any
/// indexer, so the engine must return success.
pub proof fn lemma_rollback_past_tip_run<I: Indexer>(
    d: DbV,
    vs: Seq<<I as View>::V>,
    s: u64,
    nj: int,
)
    requires
        match d.tip() {
            PointV::Origin => true,
            PointV::Specific(ts, _) => ts <= s,
        },
    ensures
        crate::db::spec_rollback_run::<I>(d, vs, s, nj) == (crate::db::RollbackRun {
            outcome: crate::db::RollbackOutcome::Done,
            store: d,
            ixs: vs,
            detail: Seq::empty(),
        }),
{
}

/// Rolling back to a point at or past the tip is a no-op and always
/// possible.
pub proof fn lemma_rollback_past_tip_no_op(d: DbV, s: u64)
    requires
        d.inv(),
    ensures
        match d.tip() {
            PointV::Origin => spec_rollback(d, s) == d && spec_can_rollback(d, s),
            PointV::Specific(ts, _) => ts <= s ==> spec_rollback(d, s) == d && spec_can_rollback(
                d,
                s,
            ),
        },
{
}

/// A concrete consequence of the vote machinery, as in a fresh start:
/// one unfiltered indexer and a valid transaction producing at least
/// one output vote to keep it, so a block carrying only that
/// transaction is stored with exactly its hash listed.
pub proof fn lemma_fresh_forward_keeps(v: crate::utxo::UtxoIndexerV, tx: crate::tx::TxV)
    requires
        v.addresses is None,
        v.assets is None,
        tx.valid,
        tx.outputs.len() > 0,
    ensures
        crate::indexer::kept_tx_hashes::<crate::utxo::UtxoIndexer>(
            seq![v],
            seq![tx],
            1,
        ) == seq![tx.hash],
{
    let vs = seq![v];
    let txs = seq![tx];
    assert(txs.take(0) =~= Seq::<crate::tx::TxV>::empty());
    assert(crate::indexer::after_txs::<crate::utxo::UtxoIndexer>(v, txs.take(0)) == v);
    assert(crate::utxo::passes_filter(v, tx.unspent()[0]));
    assert(crate::utxo::apply_keeps(v, tx)) by {
        assert(0 <= 0 < tx.unspent().len() && crate::utxo::passes_filter(v, tx.unspent()[0]));
    }
    assert(crate::indexer::tx_vote::<crate::utxo::UtxoIndexer>(vs, txs, 0)) by {
        assert(0 <= 0 < vs.len() && crate::utxo::UtxoIndexer::keeps_tx(
            crate::indexer::after_txs::<crate::utxo::UtxoIndexer>(vs[0], txs.take(0)),
            txs[0],
        ));
    }
    assert(crate::indexer::kept_tx_hashes::<crate::utxo::UtxoIndexer>(vs, txs, 0)
        == Seq::<Seq<u8>>::empty());
    assert(crate::indexer::kept_tx_hashes::<crate::utxo::UtxoIndexer>(vs, txs, 1)
        == crate::indexer::kept_tx_hashes::<crate::utxo::UtxoIndexer>(vs, txs, 0).push(
        txs[0].hash,
    ));
    assert(crate::indexer::kept_tx_hashes::<crate::utxo::UtxoIndexer>(vs, txs, 1)
        =~= seq![tx.hash]);
}

} // verus!
