use vstd::prelude::*;

use crate::indexer::Indexer;
use crate::point::Point;
use crate::point::PointV;
use crate::table::Table;
use crate::tx::Block;
use crate::tx::BlockHash;
use crate::tx::BlockV;
use crate::tx::DatumHash;
use crate::tx::Tx;
use crate::tx::TxHash;
use crate::tx::TxOutput;
use crate::tx::TxOutputPointer;
use crate::tx::TxOutputPointerV;
use crate::tx::TxV;
use crate::tx::seq_views;
use crate::volatile::VolatileBlock;
use crate::volatile::VolatileBlockV;

verus! {

/// Why a storage operation was refused. Every kind is deterministic in
/// the engine's state and the operation's input.
#[derive(Debug, Clone)]
pub enum DbError {
    /// The live indexer list does not match the one recorded at first
    /// run. Carries the recorded list, then the live one.
    IndexerIdsMismatch(Vec<String>, Vec<String>),
    /// A forward block's slot does not lie beyond the current tip.
    NonMonotonicBlock,
    /// A forward block's hash is already on the spine.
    DuplicateBlock,
    /// A forward block carries a transaction hash the volatile store
    /// already holds.
    DuplicateTx,
    /// A rollback reached a spine entry whose block body was trimmed:
    /// the rollback asks for more depth than was retained. Carries the
    /// hash of the missing body.
    RolledBackTooFar(Vec<u8>),
    /// A record the spine references is missing or inconsistent.
    /// Carries the hash of the transaction that could not be undone or
    /// resolved.
    Corruption(Vec<u8>),
}

impl PartialEq for DbError {
    fn eq(&self, other: &Self) -> (r: bool) {
        match (self, other) {
            (
                DbError::IndexerIdsMismatch(a1, b1),
                DbError::IndexerIdsMismatch(a2, b2),
            ) => ids_eq(a1, a2) && ids_eq(b1, b2),
            (DbError::NonMonotonicBlock, DbError::NonMonotonicBlock) => true,
            (DbError::DuplicateBlock, DbError::DuplicateBlock) => true,
            (DbError::DuplicateTx, DbError::DuplicateTx) => true,
            (DbError::RolledBackTooFar(a), DbError::RolledBackTooFar(b)) => crate::hash::bytes_eq(
                a,
                b,
            ),
            (DbError::Corruption(a), DbError::Corruption(b)) => crate::hash::bytes_eq(a, b),
            _ => false,
        }
    }
}

impl vstd::std_specs::cmp::PartialEqSpecImpl for DbError {
    open spec fn obeys_eq_spec() -> bool {
        true
    }

    open spec fn eq_spec(&self, other: &Self) -> bool {
        match (self, other) {
            (
                DbError::IndexerIdsMismatch(a1, b1),
                DbError::IndexerIdsMismatch(a2, b2),
            ) => seq_views(a1@) == seq_views(a2@) && seq_views(b1@) == seq_views(b2@),
            (DbError::NonMonotonicBlock, DbError::NonMonotonicBlock) => true,
            (DbError::DuplicateBlock, DbError::DuplicateBlock) => true,
            (DbError::DuplicateTx, DbError::DuplicateTx) => true,
            (DbError::RolledBackTooFar(a), DbError::RolledBackTooFar(b)) => a@ == b@,
            (DbError::Corruption(a), DbError::Corruption(b)) => a@ == b@,
            _ => false,
        }
    }
}

/// Copy an identity list.
fn ids_dup(v: &Vec<String>) -> (r: Vec<String>)
    ensures
        seq_views(r@) == seq_views(v@),
{
    let mut r: Vec<String> = Vec::new();
    let n: usize = v.len();
    let mut i: usize = 0;
    while i < n
        invariant
            n == v@.len(),
            0 <= i <= n,
            r@.len() == i,
            forall|j: int| 0 <= j < i ==> (#[trigger] r@[j])@ == v@[j]@,
        decreases n - i,
    {
        r.push(v[i].clone());
        i = i + 1;
    }
    proof {
        assert(seq_views(r@) =~= seq_views(v@));
    }
    r
}

/// Compare two identity lists by contents.
fn ids_eq(a: &Vec<String>, b: &Vec<String>) -> (r: bool)
    ensures
        r == (seq_views(a@) == seq_views(b@)),
{
    if a.len() != b.len() {
        proof {
            assert(seq_views(a@).len() != seq_views(b@).len());
        }
        return false;
    }
    let n: usize = a.len();
    let mut i: usize = 0;
    while i < n
        invariant
            n == a@.len(),
            a@.len() == b@.len(),
            0 <= i <= n,
            forall|j: int| 0 <= j < i ==> (#[trigger] a@[j])@ == b@[j]@,
        decreases n - i,
    {
        if !(a[i] == b[i]) {
            proof {
                assert(seq_views(a@)[i as int] != seq_views(b@)[i as int]);
            }
            return false;
        }
        i = i + 1;
    }
    proof {
        assert(seq_views(a@) =~= seq_views(b@));
    }
    true
}

/// Mathematical state of the volatile store: the spine of (slot, block
/// hash) entries in chronological order, the bodies of the untrimmed
/// blocks, the kept transactions, and the recorded indexer identities
/// (`None` until first provisioning).
#[verifier::ext_equal]
pub struct DbV {
    pub slots: Seq<(u64, Seq<u8>)>,
    pub blocks: Map<Seq<u8>, VolatileBlockV>,
    pub txs: Map<Seq<u8>, TxV>,
    pub ids: Option<Seq<Seq<char>>>,
}

impl DbV {
    /// Spine slots strictly increase: chronological order (monotone
    /// chronology of the spine).
    pub open spec fn slots_sorted(self) -> bool {
        forall|i: int, j: int|
            0 <= i < j < self.slots.len() ==> (#[trigger] self.slots[i]).0 < (
            #[trigger] self.slots[j]).0
    }

    /// No block hash appears twice on the spine.
    pub open spec fn slots_hashes_distinct(self) -> bool {
        forall|i: int, j: int|
            0 <= i < j < self.slots.len() ==> (#[trigger] self.slots[i]).1 != (
            #[trigger] self.slots[j]).1
    }

    /// The spine holds this (slot, hash) entry.
    pub open spec fn spine_has(self, slot: u64, h: Seq<u8>) -> bool {
        exists|i: int|
            0 <= i < self.slots.len() && (#[trigger] self.slots[i]).0 == slot && self.slots[i].1
                == h
    }

    /// Every stored block body is keyed by its own hash and referenced
    /// from the spine at its own slot.
    pub open spec fn blocks_linked(self) -> bool {
        forall|h: Seq<u8>| #[trigger]
            self.blocks.contains_key(h) ==> self.blocks[h].hash == h && self.spine_has(
                self.blocks[h].slot,
                h,
            )
    }

    /// Every transaction hash listed by an untrimmed block body is in the
    /// transaction table (spine consistency).
    pub open spec fn block_txs_present(self) -> bool {
        forall|h: Seq<u8>, k: int|
            self.blocks.contains_key(h) && 0 <= k < self.blocks[h].txs.len()
                ==> self.txs.contains_key(#[trigger] self.blocks[h].txs[k])
    }

    /// No transaction hash is listed twice, within one block body or
    /// across two.
    pub open spec fn block_txs_distinct(self) -> bool {
        forall|h1: Seq<u8>, k1: int, h2: Seq<u8>, k2: int|
            self.blocks.contains_key(h1) && self.blocks.contains_key(h2) && 0 <= k1
                < self.blocks[h1].txs.len() && 0 <= k2 < self.blocks[h2].txs.len() && (h1 != h2
                || k1 != k2) ==> (#[trigger] self.blocks[h1].txs[k1]) != (
            #[trigger] self.blocks[h2].txs[k2])
    }

    /// Every stored transaction is listed by some untrimmed block body.
    pub open spec fn txs_listed(self) -> bool {
        forall|t: Seq<u8>| #[trigger]
            self.txs.contains_key(t) ==> exists|h: Seq<u8>, k: int|
                #![trigger self.blocks[h].txs[k]]
                self.blocks.contains_key(h) && 0 <= k < self.blocks[h].txs.len()
                    && self.blocks[h].txs[k] == t
    }

    /// Every stored transaction is keyed by its own hash.
    pub open spec fn txs_keyed(self) -> bool {
        forall|t: Seq<u8>| #[trigger] self.txs.contains_key(t) ==> self.txs[t].hash == t
    }

    /// Trimming eats the spine's block bodies from the old end only: a
    /// present body is never older than an absent one.
    pub open spec fn trimmed_prefix(self) -> bool {
        forall|i: int, j: int|
            0 <= i <= j < self.slots.len() && self.blocks.contains_key(
                (#[trigger] self.slots[i]).1,
            ) ==> self.blocks.contains_key((#[trigger] self.slots[j]).1)
    }

    /// The store's invariant, maintained by every engine operation.
    pub open spec fn inv(self) -> bool {
        &&& self.slots_sorted()
        &&& self.slots_hashes_distinct()
        &&& self.blocks_linked()
        &&& self.block_txs_present()
        &&& self.block_txs_distinct()
        &&& self.txs_listed()
        &&& self.txs_keyed()
        &&& self.trimmed_prefix()
    }

    /// The tip: the newest spine entry, or the origin when empty.
    pub open spec fn tip(self) -> PointV {
        if self.slots.len() == 0 {
            PointV::Origin
        } else {
            PointV::Specific(self.slots.last().0, self.slots.last().1)
        }
    }

    /// The state after a full wipe.
    pub open spec fn cleared() -> DbV {
        DbV {
            slots: Seq::empty(),
            blocks: Map::empty(),
            txs: Map::empty(),
            ids: None,
        }
    }

    /// The output a pointer refers to, read through the volatile store.
    pub open spec fn tx_output(self, p: TxOutputPointerV) -> Option<crate::tx::TxOutputV> {
        if self.txs.contains_key(p.hash) && p.index < self.txs[p.hash].outputs.len() {
            Some(self.txs[p.hash].outputs[p.index as int])
        } else {
            None
        }
    }
}

/// The set of hashes held by a suffix of a hash list.
pub open spec fn suffix_keys(l: Seq<Seq<u8>>, k: int) -> Set<Seq<u8>>
    decreases l.len() - k,
{
    if k < 0 || k >= l.len() {
        Set::empty()
    } else {
        suffix_keys(l, k + 1).insert(l[k])
    }
}

/// Membership in [`suffix_keys`] is membership in the suffix.
pub proof fn lemma_suffix_keys(l: Seq<Seq<u8>>, k: int)
    requires
        0 <= k <= l.len(),
    ensures
        forall|t: Seq<u8>|
            suffix_keys(l, k).contains(t) <==> exists|m: int| k <= m < l.len() && l[m] == t,
    decreases l.len() - k,
{
    if k < l.len() {
        lemma_suffix_keys(l, k + 1);
        assert forall|t: Seq<u8>| suffix_keys(l, k).contains(t) implies exists|m: int|
            k <= m < l.len() && l[m] == t by {
            if t == l[k] {
                assert(k <= k < l.len() && l[k] == t);
            } else {
                assert(suffix_keys(l, k + 1).contains(t));
                let m = choose|m: int| k + 1 <= m < l.len() && l[m] == t;
                assert(k <= m < l.len() && l[m] == t);
            }
        }
        assert forall|t: Seq<u8>| (exists|m: int| k <= m < l.len() && l[m] == t) implies suffix_keys(
            l,
            k,
        ).contains(t) by {
            let m = choose|m: int| k <= m < l.len() && l[m] == t;
            if m == k {
                assert(suffix_keys(l, k).contains(l[k]));
            } else {
                assert(k + 1 <= m < l.len() && l[m] == t);
                assert(suffix_keys(l, k + 1).contains(t));
            }
        }
    }
}

/// The state after undoing the newest spine entry, assuming its block
/// body is present: the entry, the body, and the body's listed
/// transactions all leave together.
pub open spec fn spec_undo_last(d: DbV) -> DbV {
    let h = d.slots.last().1;
    DbV {
        slots: d.slots.drop_last(),
        blocks: d.blocks.remove(h),
        txs: d.txs.remove_keys(suffix_keys(d.blocks[h].txs, 0)),
        ids: d.ids,
    }
}

/// The state a rollback to `slot` reaches: newest entries above `slot`
/// are undone one by one, stopping early at an entry whose block body is
/// absent (rolled back past the retention bound).
pub open spec fn spec_rollback(d: DbV, slot: u64) -> DbV
    decreases d.slots.len(),
{
    if d.slots.len() == 0 || d.slots.last().0 <= slot {
        d
    } else if !d.blocks.contains_key(d.slots.last().1) {
        d
    } else {
        spec_rollback(spec_undo_last(d), slot)
    }
}

/// Whether a rollback to `slot` can undo everything above `slot` without
/// meeting a trimmed body.
pub open spec fn spec_can_rollback(d: DbV, slot: u64) -> bool
    decreases d.slots.len(),
{
    if d.slots.len() == 0 || d.slots.last().0 <= slot {
        true
    } else {
        d.blocks.contains_key(d.slots.last().1) && spec_can_rollback(spec_undo_last(d), slot)
    }
}

/// The state a rollback to a point reaches: a wipe for the origin, the
/// suffix undo otherwise.
pub open spec fn spec_roll_backward(d: DbV, p: PointV) -> DbV {
    match p {
        PointV::Origin => DbV::cleared(),
        PointV::Specific(s, _) => spec_rollback(d, s),
    }
}

/// The views of the recorded indexer identity list.
pub open spec fn slots_v(s: Seq<(u64, BlockHash)>) -> Seq<(u64, Seq<u8>)> {
    Seq::new(s.len(), |i: int| (s[i].0, s[i].1@))
}

/// The rollback-safe volatile store: the spine (`slots`), the block
/// bodies (`volatile_block`), the kept transactions (`volatile_tx`), and
/// the identity of the indexer set recorded at first run.
///
/// The store keeps the newest `max_rollback_blocks` block bodies
/// verbatim so rollbacks up to that depth can be replayed in reverse;
/// [`Db::trim_volatile`] evicts older bodies while the spine itself is
/// permanent.
pub struct Db {
    /// How many newest block bodies to retain across trims.
    pub max_rollback_blocks: usize,
    pub slots: Vec<(u64, BlockHash)>,
    pub volatile_block: Table<BlockHash, VolatileBlock>,
    pub volatile_tx: Table<TxHash, Tx>,
    pub indexer_ids: Option<Vec<String>>,
}

impl View for Db {
    type V = DbV;

    open spec fn view(&self) -> DbV {
        DbV {
            slots: slots_v(self.slots@),
            blocks: self.volatile_block@,
            txs: self.volatile_tx@,
            ids: match self.indexer_ids {
                Some(ref v) => Some(seq_views(v@)),
                None => None,
            },
        }
    }
}

impl Db {
    /// Both tables keep their keys unique. This much survives even in
    /// the middle of a multi-step undo, where the full invariant does
    /// not; the read-only getters ask only for this.
    pub open spec fn tables_wf(&self) -> bool {
        &&& self.volatile_block.wf()
        &&& self.volatile_tx.wf()
    }

    /// The representation invariant plus the store invariant.
    pub open spec fn wf(&self) -> bool {
        &&& self.tables_wf()
        &&& self@.inv()
    }

    /// Open a fresh, empty store that retains `max_rollback_blocks`
    /// block bodies.
    pub fn new(max_rollback_blocks: usize) -> (r: Self)
        ensures
            r.wf(),
            r@ == DbV::cleared(),
            r.max_rollback_blocks == max_rollback_blocks,
    {
        let r = Db {
            max_rollback_blocks,
            slots: Vec::new(),
            volatile_block: Table::new(),
            volatile_tx: Table::new(),
            indexer_ids: None,
        };
        proof {
            assert(slots_v(r.slots@) =~= Seq::<(u64, Seq<u8>)>::empty());
            assert(r@ =~= DbV::cleared());
        }
        r
    }

    /// Reopen a store from its persisted spine: the chronological
    /// (slot, block hash) entries and the recorded identity list. The
    /// entries must be strictly increasing by slot with pairwise
    /// distinct hashes, as every committed spine is; anything else is
    /// refused as corruption. Block bodies and kept transactions are
    /// volatile and start absent, exactly as after a full trim, so the
    /// tip and the chronology survive a restart while rollbacks reach
    /// only what the new run applies.
    #[verifier::loop_isolation(false)]
    pub fn restore(
        max_rollback_blocks: usize,
        entries: Vec<(u64, BlockHash)>,
        recorded_ids: Option<Vec<String>>,
    ) -> (r: Result<Db, DbError>)
        ensures
            match r {
                Ok(db) => {
                    &&& db.wf()
                    &&& db.max_rollback_blocks == max_rollback_blocks
                    &&& db@.slots == slots_v(entries@)
                    &&& db@.blocks == Map::<Seq<u8>, VolatileBlockV>::empty()
                    &&& db@.txs == Map::<Seq<u8>, TxV>::empty()
                    &&& db@.ids == (match recorded_ids {
                        Some(ref v) => Some(seq_views(v@)),
                        None => None::<Seq<Seq<char>>>,
                    })
                    &&& (forall|i: int, j: int|
                        0 <= i < j < entries@.len() ==> (#[trigger] entries@[i]).0 < (
                        #[trigger] entries@[j]).0)
                },
                Err(e) => (e matches DbError::Corruption(h) && h@ == Seq::<u8>::empty()) && !(
                forall|i: int, j: int|
                    0 <= i < j < entries@.len() ==> (#[trigger] entries@[i]).0 < (
                    #[trigger] entries@[j]).0 && (#[trigger] entries@[i]).1@ != (
                    #[trigger] entries@[j]).1@),
            },
    {
        let n: usize = entries.len();
        let mut i: usize = 1;
        while i < n
            invariant
                1 <= i,
                n == entries@.len(),
                forall|a: int, b: int|
                    0 <= a < b < entries@.len() && b < i ==> (#[trigger] entries@[a]).0 < (
                    #[trigger] entries@[b]).0,
            decreases n - i,
        {
            if !(entries[i - 1].0 < entries[i].0) {
                return Err(DbError::Corruption(Vec::new()));
            }
            proof {
                assert forall|a: int, b: int|
                    0 <= a < b < entries@.len() && b < i + 1 implies (#[trigger] entries@[a]).0 < (
                #[trigger] entries@[b]).0 by {
                    if b == i {
                        if a < i - 1 {
                            assert(entries@[a].0 < entries@[i - 1].0);
                        }
                    }
                }
            }
            i = i + 1;
        }
        proof {
            assert forall|a: int, b: int|
                0 <= a < b < entries@.len() implies (#[trigger] entries@[a]).0 < (
            #[trigger] entries@[b]).0 by {}
        }
        let mut i: usize = 0;
        while i < n
            invariant
                0 <= i <= n,
                n == entries@.len(),
                forall|a: int, b: int|
                    0 <= a < b < entries@.len() ==> (#[trigger] entries@[a]).0 < (
                    #[trigger] entries@[b]).0,
                forall|a: int, b: int|
                    0 <= a < b < entries@.len() && b < i ==> (#[trigger] entries@[a]).1@ != (
                    #[trigger] entries@[b]).1@,
            decreases n - i,
        {
            let mut a: usize = 0;
            while a < i
                invariant
                    0 <= a <= i < n,
                    forall|c: int|
                        0 <= c < a ==> (#[trigger] entries@[c]).1@ != entries@[i as int].1@,
                decreases i - a,
            {
                if entries[a].1.same(&entries[i].1) {
                    return Err(DbError::Corruption(Vec::new()));
                }
                a = a + 1;
            }
            i = i + 1;
        }
        let db = Db {
            max_rollback_blocks,
            slots: entries,
            volatile_block: Table::new(),
            volatile_tx: Table::new(),
            indexer_ids: recorded_ids,
        };
        proof {
            assert forall|h: Seq<u8>| true implies !db@.blocks.contains_key(h) by {}
            assert(db@.blocks =~= Map::<Seq<u8>, VolatileBlockV>::empty());
            assert(db@.txs =~= Map::<Seq<u8>, TxV>::empty());
        }
        Ok(db)
    }

    /// The newest known point: `Specific(max slot, its hash)`, or
    /// `Origin` when the spine is empty (tip equality).
    pub fn tip(&self) -> (r: Point)
        ensures
            r@ == self@.tip(),
    {
        let n: usize = self.slots.len();
        if n == 0 {
            Point::Origin
        } else {
            let last = &self.slots[n - 1];
            Point::Specific(last.0, last.1.clone())
        }
    }

    /// The spine entries, oldest first.
    pub fn slot_entries(&self) -> (r: &Vec<(u64, BlockHash)>)
        ensures
            slots_v(r@) == self@.slots,
    {
        &self.slots
    }

    /// The body of an untrimmed block, by hash.
    pub fn get_volatile_block(&self, block_hash: &BlockHash) -> (r: Option<&VolatileBlock>)
        requires
            self.tables_wf(),
        ensures
            match r {
                Some(b) => self@.blocks.contains_key(block_hash@) && b@ == self@.blocks[block_hash@],
                None => !self@.blocks.contains_key(block_hash@),
            },
    {
        self.volatile_block.get(block_hash)
    }

    /// A kept transaction, by hash.
    pub fn get_volatile_tx(&self, tx_hash: &TxHash) -> (r: Option<&Tx>)
        requires
            self.tables_wf(),
        ensures
            match r {
                Some(t) => self@.txs.contains_key(tx_hash@) && t@ == self@.txs[tx_hash@],
                None => !self@.txs.contains_key(tx_hash@),
            },
    {
        self.volatile_tx.get(tx_hash)
    }

    /// The output a pointer refers to. Three cases, told apart as the
    /// corruption doctrine demands: the output when its transaction is
    /// kept and the index is in range; plain absence when the
    /// transaction is not kept at all; and an error carrying the
    /// pointer's transaction hash when the transaction is kept but the
    /// index runs past its outputs — a record the spine references is
    /// then inconsistent, never to be folded into absence.
    pub fn get_volatile_tx_output(&self, pointer: &TxOutputPointer) -> (r: Result<
        Option<&TxOutput>,
        DbError,
    >)
        requires
            self.tables_wf(),
        ensures
            match r {
                Ok(Some(o)) => self@.tx_output(pointer@) == Some(o@),
                Ok(None) => !self@.txs.contains_key(pointer@.hash),
                Err(e) => self@.txs.contains_key(pointer@.hash) && pointer@.index
                    >= self@.txs[pointer@.hash].outputs.len() && (e matches DbError::Corruption(h)
                    && h@ == pointer@.hash),
            },
    {
        match self.volatile_tx.get(&pointer.hash) {
            Some(tx) => {
                if pointer.index < tx.outputs.len() as u64 {
                    let idx: usize = pointer.index as usize;
                    let o = &tx.outputs[idx];
                    proof {
                        assert(seq_views(tx.outputs@)[pointer@.index as int] == o@);
                    }
                    Ok(Some(o))
                } else {
                    proof {
                        assert(self@.txs[pointer@.hash].outputs.len() == tx.outputs@.len());
                    }
                    Err(DbError::Corruption(crate::hash::bytes_dup(&pointer.hash.bytes)))
                }
            },
            None => Ok(None),
        }
    }

    /// Record the indexer identity list on first run; on later runs
    /// demand that the live list matches it exactly, in order and in
    /// membership (indexer identity).
    pub fn assert_indexer_ids(&mut self, ids: &Vec<String>) -> (r: Result<(), DbError>)
        requires
            old(self).wf(),
        ensures
            final(self).wf(),
            final(self).max_rollback_blocks == old(self).max_rollback_blocks,
            final(self)@.slots == old(self)@.slots,
            final(self)@.blocks == old(self)@.blocks,
            final(self)@.txs == old(self)@.txs,
            match old(self)@.ids {
                None => r is Ok && final(self)@.ids == Some(seq_views(ids@)),
                Some(recorded) => final(self)@ == old(self)@ && (r is Ok <==> recorded
                    == seq_views(ids@)) && (r matches Err(e) ==> e matches
                    DbError::IndexerIdsMismatch(exp, got) && seq_views(exp@) == recorded
                    && seq_views(got@) == seq_views(ids@)),
            },
    {
        if self.indexer_ids.is_none() {
            let mut copy: Vec<String> = Vec::new();
            let n: usize = ids.len();
            let mut i: usize = 0;
            while i < n
                invariant
                    *self == *old(self),
                    old(self).wf(),
                    n == ids@.len(),
                    0 <= i <= n,
                    copy@.len() == i,
                    forall|j: int| 0 <= j < i ==> (#[trigger] copy@[j])@ == ids@[j]@,
                decreases n - i,
            {
                copy.push(ids[i].clone());
                i = i + 1;
            }
            proof {
                assert(seq_views(copy@) =~= seq_views(ids@));
            }
            self.indexer_ids = Some(copy);
            proof {
                lemma_inv_ignores_ids(old(self)@, self@);
            }
            Ok(())
        } else {
            let recorded = match &self.indexer_ids {
                Some(v) => v,
                None => unreached(),
            };
            if recorded.len() != ids.len() {
                proof {
                    assert(seq_views(recorded@).len() != seq_views(ids@).len());
                }
                return Err(DbError::IndexerIdsMismatch(ids_dup(recorded), ids_dup(ids)));
            }
            let n: usize = recorded.len();
            let mut i: usize = 0;
            while i < n
                invariant
                    *self == *old(self),
                    old(self).wf(),
                    self.indexer_ids == Some::<Vec<String>>(*recorded),
                    n == recorded@.len(),
                    recorded@.len() == ids@.len(),
                    0 <= i <= n,
                    forall|j: int| 0 <= j < i ==> (#[trigger] recorded@[j])@ == ids@[j]@,
                decreases n - i,
            {
                if !(recorded[i] == ids[i]) {
                    proof {
                        assert(seq_views(recorded@)[i as int] != seq_views(ids@)[i as int]);
                    }
                    return Err(DbError::IndexerIdsMismatch(ids_dup(recorded), ids_dup(ids)));
                }
                i = i + 1;
            }
            proof {
                assert(seq_views(recorded@) =~= seq_views(ids@));
            }
            Ok(())
        }
    }
}

/// A copy of `d` with this identity list recorded, used to state how an
/// operation provisions `indexer_ids` on first run.
pub open spec fn spec_provisioned(d: DbV, ids: Seq<Seq<char>>) -> DbV {
    match d.ids {
        None => DbV { ids: Some(ids), ..d },
        Some(_) => d,
    }
}

impl Db {
    /// Wipe the spine, both volatile tables, the recorded identity list,
    /// and every indexer's own tables, in one logical transaction.
    pub fn clear<I: Indexer>(&mut self, indexers: &mut Vec<I>)
        requires
            old(self).wf(),
            crate::indexer::all_inv(old(indexers)@),
        ensures
            final(self).wf(),
            final(self)@ == DbV::cleared(),
            final(self).max_rollback_blocks == old(self).max_rollback_blocks,
            crate::indexer::all_inv(final(indexers)@),
            crate::indexer::ids_of(final(indexers)@) == crate::indexer::ids_of(old(indexers)@),
            final(indexers)@.len() == old(indexers)@.len(),
            forall|j: int|
                0 <= j < old(indexers)@.len() ==> (#[trigger] final(indexers)@[j])@
                    == I::after_clear(old(indexers)@[j]@),
    {
        self.slots = Vec::new();
        self.volatile_block.clear();
        self.volatile_tx.clear();
        self.indexer_ids = None;
        proof {
            assert(slots_v(self.slots@) =~= Seq::<(u64, Seq<u8>)>::empty());
            assert(self@ =~= DbV::cleared());
        }
        let ghost cleared_self = *self;
        let n: usize = indexers.len();
        let mut j: usize = 0;
        while j < n
            invariant
                *self == cleared_self,
                cleared_self.wf(),
                cleared_self@ == DbV::cleared(),
                cleared_self.max_rollback_blocks == old(self).max_rollback_blocks,
                n == indexers@.len(),
                indexers@.len() == old(indexers)@.len(),
                0 <= j <= n,
                forall|m: int| j <= m < n ==> indexers@[m] == old(indexers)@[m],
                forall|m: int|
                    0 <= m < j ==> (#[trigger] indexers@[m])@ == I::after_clear(
                        old(indexers)@[m]@,
                    ),
                forall|m: int|
                    0 <= m < j ==> (#[trigger] indexers@[m]).inv() && indexers@[m].id_spec()
                        == old(indexers)@[m].id_spec(),
                crate::indexer::all_inv(old(indexers)@),
            decreases n - j,
        {
            let ix = crate::indexer::vec_at_mut(indexers, j);
            proof {
                assert(old(indexers)@[j as int].inv());
            }
            ix.clear();
            j = j + 1;
        }
        proof {
            assert forall|m: int| 0 <= m < n implies (#[trigger] indexers@[m]).inv() by {}
            assert(crate::indexer::ids_of(indexers@) =~= crate::indexer::ids_of(old(indexers)@));
        }
    }
}


/// A hash list holds this hash.
pub open spec fn list_has(l: Seq<Seq<u8>>, t: Seq<u8>) -> bool {
    exists|k: int| 0 <= k < l.len() && l[k] == t
}

/// The store keeps `t` as a transaction of block `b`: some transaction
/// of `b` has hash `t`, and the store maps `t` to it.
pub open spec fn kept_tx_from(post: DbV, b: BlockV, t: Seq<u8>) -> bool {
    exists|i: int|
        0 <= i < b.txs.len() && (#[trigger] b.txs[i]).hash == t && post.txs.contains_key(t)
            && post.txs[t] == b.txs[i]
}

/// `t` is the hash of one of block `b`'s datums.
pub open spec fn datum_of(b: BlockV, t: Seq<u8>) -> bool {
    exists|i: int| 0 <= i < b.datums.len() && (#[trigger] b.datums[i]).0 == t
}

/// The recorded identity list (if any) matches the live one.
pub open spec fn fwd_ids_ok(d: DbV, ids: Seq<Seq<char>>) -> bool {
    d.ids is None || d.ids == Some(ids)
}

/// The block's slot lies strictly beyond the tip (monotone chronology).
pub open spec fn fwd_monotonic(d: DbV, b: BlockV) -> bool {
    d.slots.len() == 0 || d.slots.last().0 < b.slot
}

/// The block's hash is not yet on the spine.
pub open spec fn fwd_fresh_block(d: DbV, b: BlockV) -> bool {
    forall|i: int| 0 <= i < d.slots.len() ==> (#[trigger] d.slots[i]).1 != b.hash
}

/// The block's transaction hashes are pairwise distinct and none is
/// already kept in the volatile store.
pub open spec fn fwd_fresh_txs(d: DbV, b: BlockV) -> bool {
    &&& forall|i: int| 0 <= i < b.txs.len() ==> !d.txs.contains_key((#[trigger] b.txs[i]).hash)
    &&& forall|i: int, j: int|
        0 <= i < j < b.txs.len() ==> (#[trigger] b.txs[i]).hash != (#[trigger] b.txs[j]).hash
}

/// How a store that accepted a forward block relates to the one before:
/// the spine grew by the block's (slot, hash); the new block body is
/// keyed by the block's hash and carries its identity; the kept
/// transactions are exactly the ones the new body lists, each stored
/// under its own hash with the block's value for it; the kept datum
/// hashes all come from the block; nothing else changed.
pub open spec fn spec_forward_rel(pre: DbV, post: DbV, b: BlockV) -> bool {
    let bh = b.hash;
    let body = post.blocks[bh];
    &&& post.blocks.contains_key(bh)
    &&& post.slots == pre.slots.push((b.slot, bh))
    &&& post.blocks == pre.blocks.insert(bh, body)
    &&& body.hash == bh
    &&& body.slot == b.slot
    &&& body.number == b.number
    &&& post.ids == pre.ids
    &&& forall|t: Seq<u8>| #[trigger]
        pre.txs.contains_key(t) ==> post.txs.contains_key(t) && post.txs[t] == pre.txs[t]
    &&& forall|t: Seq<u8>| #[trigger]
        post.txs.contains_key(t) ==> pre.txs.contains_key(t) || list_has(body.txs, t)
    &&& forall|k: int| 0 <= k < body.txs.len() ==> kept_tx_from(post, b, #[trigger] body.txs[k])
    &&& forall|k: int| 0 <= k < body.datums.len() ==> datum_of(b, #[trigger] body.datums[k])
}

impl Db {
    /// Apply one block: consult every indexer for every transaction and
    /// datum (folding the keep votes with OR), store the kept
    /// transactions in `volatile_tx`, write the block body to
    /// `volatile_block` and the (slot, hash) entry to the spine.
    ///
    /// Hook order, as the contract pins it: every indexer sees every
    /// transaction, in block order, and only then every datum, in block
    /// order — datums are carried at block level and are not
    /// interleaved per transaction. An indexer whose datum hooks read
    /// transaction-dependent state sees all of the block's transactions
    /// first.
    ///
    /// The call is refused, leaving the store unchanged apart from
    /// first-run provisioning of `indexer_ids`, when the identity list
    /// mismatches, when the block does not extend the chronology, when
    /// its hash is already on the spine, or when it carries a transaction
    /// hash the store already holds (a repeated forward of one block
    /// fails deterministically this way).
    #[verifier::loop_isolation(false)]
    #[verifier::rlimit(60)]
    pub fn roll_forward<I: Indexer>(&mut self, indexers: &mut Vec<I>, block: &Block) -> (r: Result<
        (),
        DbError,
    >)
        requires
            old(self).wf(),
            crate::indexer::all_inv(old(indexers)@),
        ensures
            final(self).wf(),
            final(self).max_rollback_blocks == old(self).max_rollback_blocks,
            crate::indexer::all_inv(final(indexers)@),
            crate::indexer::ids_of(final(indexers)@) == crate::indexer::ids_of(old(indexers)@),
            final(indexers)@.len() == old(indexers)@.len(),
            ({
                let ids = crate::indexer::ids_of(old(indexers)@);
                let pre = spec_provisioned(old(self)@, ids);
                let vs0 = crate::indexer::ix_views(old(indexers)@);
                match r {
                    Ok(()) => fwd_ids_ok(old(self)@, ids) && fwd_monotonic(pre, block@)
                        && fwd_fresh_block(pre, block@) && fwd_fresh_txs(pre, block@)
                        && spec_forward_rel(pre, final(self)@, block@)
                        && final(self)@.blocks[block@.hash].txs
                        == crate::indexer::kept_tx_hashes::<I>(
                        vs0,
                        block@.txs,
                        block@.txs.len() as int,
                    ) && final(self)@.blocks[block@.hash].datums
                        == crate::indexer::kept_datum_hashes::<I>(
                        vs0,
                        block@.txs,
                        block@.datums,
                        block@.datums.len() as int,
                    ) && (forall|j: int|
                        0 <= j < old(indexers)@.len() ==> (#[trigger] final(indexers)@[j])@
                            == crate::indexer::after_datums::<I>(
                            crate::indexer::after_txs::<I>(old(indexers)@[j]@, block@.txs),
                            block@.datums,
                        )),
                    Err(e) => final(self)@ == pre && final(indexers)@ == old(indexers)@ && ((
                    e matches DbError::IndexerIdsMismatch(_, _)) || e == DbError::NonMonotonicBlock
                        || e == DbError::DuplicateBlock || e == DbError::DuplicateTx) && ((
                    e matches DbError::IndexerIdsMismatch(_, _)) <==> !fwd_ids_ok(
                        old(self)@,
                        ids,
                    )) && (e matches DbError::IndexerIdsMismatch(exp, got) ==> old(self)@.ids
                        == Some(seq_views(exp@)) && seq_views(got@) == ids) && (e
                        == DbError::NonMonotonicBlock <==> fwd_ids_ok(old(self)@, ids)
                        && !fwd_monotonic(pre, block@)) && (e == DbError::DuplicateBlock
                        <==> fwd_ids_ok(old(self)@, ids) && fwd_monotonic(pre, block@)
                        && !fwd_fresh_block(pre, block@)) && (e == DbError::DuplicateTx
                        <==> fwd_ids_ok(old(self)@, ids) && fwd_monotonic(pre, block@)
                        && fwd_fresh_block(pre, block@) && !fwd_fresh_txs(pre, block@)),
                }
            }),
    {
        let ghost ids_g = crate::indexer::ids_of(old(indexers)@);
        // Collect the live identity list.
        let mut ids: Vec<String> = Vec::new();
        let nj: usize = indexers.len();
        let mut j: usize = 0;
        while j < nj
            invariant
                *self == *old(self),
                *indexers == *old(indexers),
                0 <= j <= nj,
                ids@.len() == j,
                forall|m: int| 0 <= m < j ==> (#[trigger] ids@[m])@ == old(indexers)@[m].id_spec(),
            decreases nj - j,
        {
            let ix = &indexers[j];
            ids.push(ix.id());
            j = j + 1;
        }
        proof {
            assert(seq_views(ids@) =~~= ids_g);
        }

        // Identity invariant, with first-run provisioning.
        match self.assert_indexer_ids(&ids) {
            Ok(()) => (),
            Err(e) => {
                return Err(e);
            },
        }
        let ghost pre = *self;
        proof {
            assert(pre@ =~= spec_provisioned(old(self)@, ids_g));
            assert(fwd_ids_ok(old(self)@, ids_g));
        }

        // Monotone chronology.
        let ns: usize = self.slots.len();
        if ns > 0 {
            let last_slot = self.slots[ns - 1].0;
            proof {
                assert(pre@.slots.last().0 == last_slot);
            }
            if block.slot <= last_slot {
                return Err(DbError::NonMonotonicBlock);
            }
        }
        proof {
            assert(fwd_monotonic(pre@, block@));
        }

        // The block hash must be new to the spine.
        let mut m: usize = 0;
        while m < ns
            invariant
                *self == pre,
                0 <= m <= ns,
                forall|i: int| 0 <= i < m ==> (#[trigger] self.slots@[i]).1@ != block.hash@,
            decreases ns - m,
        {
            if self.slots[m].1.same(&block.hash) {
                proof {
                    assert(pre@.slots[m as int].1 == block@.hash);
                }
                return Err(DbError::DuplicateBlock);
            }
            m = m + 1;
        }
        proof {
            assert forall|i: int| 0 <= i < pre@.slots.len() implies (#[trigger] pre@.slots[i]).1
                != block@.hash by {
                assert(self.slots@[i].1@ != block.hash@);
            }
            assert(fwd_fresh_block(pre@, block@));
        }

        // Every transaction hash must be fresh, and unrepeated in the block.
        let nt: usize = block.txs.len();
        let mut i: usize = 0;
        while i < nt
            invariant
                *self == pre,
                0 <= i <= nt,
                forall|a: int|
                    0 <= a < i ==> !pre@.txs.contains_key((#[trigger] block.txs@[a])@.hash),
                forall|a: int, b: int|
                    0 <= a < b < i ==> (#[trigger] block.txs@[a])@.hash != (
                    #[trigger] block.txs@[b])@.hash,
            decreases nt - i,
        {
            let txi = &block.txs[i];
            if self.volatile_tx.get(&txi.hash).is_some() {
                proof {
                    assert(block@.txs[i as int] == block.txs@[i as int]@);
                    assert(pre@.txs.contains_key(block@.txs[i as int].hash));
                    assert(!fwd_fresh_txs(pre@, block@));
                }
                return Err(DbError::DuplicateTx);
            }
            let mut a: usize = 0;
            while a < i
                invariant
                    0 <= a <= i,
                    forall|c: int|
                        0 <= c < a ==> (#[trigger] block.txs@[c])@.hash != block.txs@[i as int]@.hash,
                decreases i - a,
            {
                if block.txs[a].hash.same(&txi.hash) {
                    proof {
                        assert(block@.txs[a as int] == block.txs@[a as int]@);
                        assert(block@.txs[i as int] == block.txs@[i as int]@);
                        assert(block@.txs[a as int].hash == block@.txs[i as int].hash);
                        assert(!fwd_fresh_txs(pre@, block@));
                    }
                    return Err(DbError::DuplicateTx);
                }
                a = a + 1;
            }
            i = i + 1;
        }
        proof {
            assert(fwd_fresh_txs(pre@, block@));
        }

        // Consult the indexers and keep what they asked for.
        let ghost pre_ix = *indexers;
        let ghost vs0 = crate::indexer::ix_views(old(indexers)@);
        proof {
            assert forall|q: int| 0 <= q < indexers@.len() implies (#[trigger] indexers@[q])@
                == crate::indexer::after_txs::<I>(vs0[q], block@.txs.take(0)) by {
                assert(block@.txs.take(0) =~= Seq::<TxV>::empty());
                assert(vs0[q] == old(indexers)@[q]@);
            }
            assert(seq_views(Seq::<TxHash>::empty()) =~= crate::indexer::kept_tx_hashes::<I>(
                vs0,
                block@.txs,
                0,
            ));
        }
        let mut tx_hashes: Vec<TxHash> = Vec::new();
        let mut i: usize = 0;
        while i < nt
            invariant
                self.max_rollback_blocks == pre.max_rollback_blocks,
                self.slots == pre.slots,
                self.volatile_block == pre.volatile_block,
                self.indexer_ids == pre.indexer_ids,
                self.volatile_tx.wf(),
                0 <= i <= nt,
                indexers@.len() == pre_ix@.len(),
                crate::indexer::all_inv(indexers@),
                forall|q: int|
                    0 <= q < indexers@.len() ==> (#[trigger] indexers@[q]).id_spec()
                        == pre_ix@[q].id_spec(),
                forall|q: int|
                    0 <= q < indexers@.len() ==> (#[trigger] indexers@[q])@
                        == crate::indexer::after_txs::<I>(vs0[q], block@.txs.take(i as int)),
                seq_views(tx_hashes@) == crate::indexer::kept_tx_hashes::<I>(
                    vs0,
                    block@.txs,
                    i as int,
                ),
                forall|k: int|
                    0 <= k < tx_hashes@.len() ==> exists|mm: int|
                        0 <= mm < i && (#[trigger] tx_hashes@[k])@ == block.txs@[mm]@.hash
                            && self.volatile_tx@.contains_key(block.txs@[mm]@.hash)
                            && self.volatile_tx@[block.txs@[mm]@.hash] == block.txs@[mm]@,
                forall|k1: int, k2: int|
                    0 <= k1 < k2 < tx_hashes@.len() ==> (#[trigger] tx_hashes@[k1])@ != (
                    #[trigger] tx_hashes@[k2])@,
                forall|t: Seq<u8>| #[trigger]
                    pre@.txs.contains_key(t) ==> self.volatile_tx@.contains_key(t)
                        && self.volatile_tx@[t] == pre@.txs[t],
                forall|t: Seq<u8>| #[trigger]
                    self.volatile_tx@.contains_key(t) ==> pre@.txs.contains_key(t) || list_has(
                        seq_views(tx_hashes@),
                        t,
                    ),
            decreases nt - i,
        {
            let txi = &block.txs[i];
            proof {
                assert(txi@ == block@.txs[i as int]);
            }
            let mut kept = false;
            let mut j: usize = 0;
            while j < nj
                invariant
                    0 <= j <= nj,
                    indexers@.len() == pre_ix@.len(),
                    crate::indexer::all_inv(indexers@),
                    forall|q: int|
                        0 <= q < indexers@.len() ==> (#[trigger] indexers@[q]).id_spec()
                            == pre_ix@[q].id_spec(),
                    forall|q: int|
                        0 <= q < j ==> (#[trigger] indexers@[q])@ == I::after_insert_tx(
                            crate::indexer::after_txs::<I>(vs0[q], block@.txs.take(i as int)),
                            block@.txs[i as int],
                        ),
                    forall|q: int|
                        j <= q < nj ==> (#[trigger] indexers@[q])@
                            == crate::indexer::after_txs::<I>(vs0[q], block@.txs.take(i as int)),
                    kept == (exists|q: int|
                        0 <= q < j && I::keeps_tx(
                            crate::indexer::after_txs::<I>(
                                #[trigger] vs0[q],
                                block@.txs.take(i as int),
                            ),
                            block@.txs[i as int],
                        )),
                decreases nj - j,
            {
                let ix = crate::indexer::vec_at_mut(indexers, j);
                let ghost st = crate::indexer::after_txs::<I>(vs0[j as int], block@.txs.take(i as int));
                let k = ix.insert_tx(txi);
                proof {
                    let ghost was = kept;
                    if k {
                        assert(I::keeps_tx(st, block@.txs[i as int]));
                        assert(0 <= j < j + 1 && I::keeps_tx(
                            crate::indexer::after_txs::<I>(vs0[j as int], block@.txs.take(i as int)),
                            block@.txs[i as int],
                        ));
                    }
                    if was {
                        let q0 = choose|q: int|
                            0 <= q < j && I::keeps_tx(
                                crate::indexer::after_txs::<I>(
                                    #[trigger] vs0[q],
                                    block@.txs.take(i as int),
                                ),
                                block@.txs[i as int],
                            );
                        assert(0 <= q0 < j + 1 && I::keeps_tx(
                            crate::indexer::after_txs::<I>(vs0[q0], block@.txs.take(i as int)),
                            block@.txs[i as int],
                        ));
                    }
                    if !was && !k {
                        if exists|q: int|
                            0 <= q < j + 1 && I::keeps_tx(
                                crate::indexer::after_txs::<I>(
                                    #[trigger] vs0[q],
                                    block@.txs.take(i as int),
                                ),
                                block@.txs[i as int],
                            ) {
                            let q0 = choose|q: int|
                                0 <= q < j + 1 && I::keeps_tx(
                                    crate::indexer::after_txs::<I>(
                                        #[trigger] vs0[q],
                                        block@.txs.take(i as int),
                                    ),
                                    block@.txs[i as int],
                                );
                            assert(q0 == j);
                        }
                    }
                }
                kept = kept || k;
                j = j + 1;
            }
            proof {
                assert(block@.txs.take(i + 1).drop_last() =~= block@.txs.take(i as int));
                assert(block@.txs.take(i + 1).last() == block@.txs[i as int]);
                assert forall|q: int| 0 <= q < indexers@.len() implies (#[trigger] indexers@[q])@
                    == crate::indexer::after_txs::<I>(vs0[q], block@.txs.take(i + 1)) by {
                    assert(indexers@[q]@ == I::after_insert_tx(
                        crate::indexer::after_txs::<I>(vs0[q], block@.txs.take(i as int)),
                        block@.txs[i as int],
                    ));
                }
                assert(kept == crate::indexer::tx_vote::<I>(vs0, block@.txs, i as int)) by {
                    if kept {
                        let q0 = choose|q: int|
                            0 <= q < nj && I::keeps_tx(
                                crate::indexer::after_txs::<I>(
                                    #[trigger] vs0[q],
                                    block@.txs.take(i as int),
                                ),
                                block@.txs[i as int],
                            );
                        assert(0 <= q0 < vs0.len() && I::keeps_tx(
                            crate::indexer::after_txs::<I>(vs0[q0], block@.txs.take(i as int)),
                            block@.txs[i as int],
                        ));
                    }
                    if crate::indexer::tx_vote::<I>(vs0, block@.txs, i as int) {
                        let q0 = choose|q: int|
                            0 <= q < vs0.len() && I::keeps_tx(
                                crate::indexer::after_txs::<I>(
                                    #[trigger] vs0[q],
                                    block@.txs.take(i as int),
                                ),
                                block@.txs[i as int],
                            );
                        assert(0 <= q0 < nj && I::keeps_tx(
                            crate::indexer::after_txs::<I>(vs0[q0], block@.txs.take(i as int)),
                            block@.txs[i as int],
                        ));
                    }
                }
            }
            if kept {
                let ghost pre_th = tx_hashes@;
                let ghost pre_map = self.volatile_tx@;
                tx_hashes.push(txi.hash.clone());
                self.volatile_tx.insert(txi.hash.clone(), txi.clone());
                proof {
                    let newh = block.txs@[i as int]@.hash;
                    assert(tx_hashes@.drop_last() =~= pre_th);
                    assert(seq_views(tx_hashes@) =~= crate::indexer::kept_tx_hashes::<I>(
                        vs0,
                        block@.txs,
                        i + 1,
                    ));
                    assert forall|k: int| 0 <= k < tx_hashes@.len() implies exists|mm: int|
                        0 <= mm < i + 1 && (#[trigger] tx_hashes@[k])@ == block.txs@[mm]@.hash
                            && self.volatile_tx@.contains_key(block.txs@[mm]@.hash)
                            && self.volatile_tx@[block.txs@[mm]@.hash] == block.txs@[mm]@ by {
                        if k < tx_hashes@.len() - 1 {
                            assert(tx_hashes@[k] == pre_th[k]);
                            let mm = choose|mm: int|
                                0 <= mm < i && (#[trigger] pre_th[k])@ == block.txs@[mm]@.hash
                                    && pre_map.contains_key(block.txs@[mm]@.hash)
                                    && pre_map[block.txs@[mm]@.hash] == block.txs@[mm]@;
                            assert(block.txs@[mm]@.hash != newh);
                            assert(0 <= mm < i + 1 && tx_hashes@[k]@ == block.txs@[mm]@.hash
                                && self.volatile_tx@.contains_key(block.txs@[mm]@.hash)
                                && self.volatile_tx@[block.txs@[mm]@.hash] == block.txs@[mm]@);
                        } else {
                            assert(tx_hashes@[k]@ == newh);
                            assert(0 <= i < i + 1 && tx_hashes@[k]@ == block.txs@[i as int]@.hash
                                && self.volatile_tx@.contains_key(block.txs@[i as int]@.hash)
                                && self.volatile_tx@[block.txs@[i as int]@.hash] == block.txs@[i as int]@);
                        }
                    }
                    assert forall|k1: int, k2: int|
                        0 <= k1 < k2 < tx_hashes@.len() implies (#[trigger] tx_hashes@[k1])@ != (
                    #[trigger] tx_hashes@[k2])@ by {
                        if k2 == tx_hashes@.len() - 1 {
                            let mm = choose|mm: int|
                                0 <= mm < i && (#[trigger] pre_th[k1])@ == block.txs@[mm]@.hash
                                    && pre_map.contains_key(block.txs@[mm]@.hash)
                                    && pre_map[block.txs@[mm]@.hash] == block.txs@[mm]@;
                            assert(block.txs@[mm]@.hash != newh);
                        }
                    }
                    assert forall|t: Seq<u8>| #[trigger]
                        self.volatile_tx@.contains_key(t) implies pre@.txs.contains_key(t)
                        || list_has(seq_views(tx_hashes@), t) by {
                        if t == newh {
                            assert(seq_views(tx_hashes@)[tx_hashes@.len() - 1] == t);
                        } else if !pre@.txs.contains_key(t) {
                            assert(pre_map.contains_key(t));
                            assert(list_has(seq_views(pre_th), t));
                            let k = choose|k: int|
                                0 <= k < seq_views(pre_th).len() && seq_views(pre_th)[k] == t;
                            assert(seq_views(tx_hashes@)[k] == t);
                        }
                    }
                }
            } else {
                proof {
                    assert(seq_views(tx_hashes@) == crate::indexer::kept_tx_hashes::<I>(
                        vs0,
                        block@.txs,
                        i + 1,
                    ));
                }
            }
            i = i + 1;
        }

        // Consult the indexers about the datums.
        let mut datum_hashes: Vec<DatumHash> = Vec::new();
        let nd: usize = block.datums.len();
        let ghost mid_self = *self;
        proof {
            assert(block@.txs.take(nt as int) =~= block@.txs);
            assert forall|q: int| 0 <= q < indexers@.len() implies (#[trigger] indexers@[q])@
                == crate::indexer::after_datums::<I>(
                crate::indexer::after_txs::<I>(vs0[q], block@.txs),
                block@.datums.take(0),
            ) by {
                assert(block@.datums.take(0) =~= Seq::<(Seq<u8>, Seq<u8>)>::empty());
            }
            assert(seq_views(Seq::<DatumHash>::empty()) =~= crate::indexer::kept_datum_hashes::<
                I,
            >(vs0, block@.txs, block@.datums, 0));
        }
        let mut i: usize = 0;
        while i < nd
            invariant
                *self == mid_self,
                0 <= i <= nd,
                indexers@.len() == pre_ix@.len(),
                crate::indexer::all_inv(indexers@),
                forall|q: int|
                    0 <= q < indexers@.len() ==> (#[trigger] indexers@[q]).id_spec()
                        == pre_ix@[q].id_spec(),
                forall|q: int|
                    0 <= q < indexers@.len() ==> (#[trigger] indexers@[q])@
                        == crate::indexer::after_datums::<I>(
                        crate::indexer::after_txs::<I>(vs0[q], block@.txs),
                        block@.datums.take(i as int),
                    ),
                seq_views(datum_hashes@) == crate::indexer::kept_datum_hashes::<I>(
                    vs0,
                    block@.txs,
                    block@.datums,
                    i as int,
                ),
                forall|k: int|
                    0 <= k < datum_hashes@.len() ==> exists|mm: int|
                        0 <= mm < nd && (#[trigger] datum_hashes@[k])@ == block.datums@[mm].0@,
            decreases nd - i,
        {
            let pair = &block.datums[i];
            proof {
                assert(block@.datums[i as int] == (block.datums@[i as int].0@, block.datums@[i as int].1@));
            }
            let mut kept = false;
            let mut j: usize = 0;
            while j < nj
                invariant
                    0 <= j <= nj,
                    indexers@.len() == pre_ix@.len(),
                    crate::indexer::all_inv(indexers@),
                    forall|q: int|
                        0 <= q < indexers@.len() ==> (#[trigger] indexers@[q]).id_spec()
                            == pre_ix@[q].id_spec(),
                    forall|q: int|
                        0 <= q < j ==> (#[trigger] indexers@[q])@ == I::after_insert_datum(
                            crate::indexer::after_datums::<I>(
                                crate::indexer::after_txs::<I>(vs0[q], block@.txs),
                                block@.datums.take(i as int),
                            ),
                            block@.datums[i as int].0,
                            block@.datums[i as int].1,
                        ),
                    forall|q: int|
                        j <= q < nj ==> (#[trigger] indexers@[q])@
                            == crate::indexer::after_datums::<I>(
                            crate::indexer::after_txs::<I>(vs0[q], block@.txs),
                            block@.datums.take(i as int),
                        ),
                    kept == (exists|q: int|
                        0 <= q < j && I::keeps_datum(
                            crate::indexer::after_datums::<I>(
                                crate::indexer::after_txs::<I>(#[trigger] vs0[q], block@.txs),
                                block@.datums.take(i as int),
                            ),
                            block@.datums[i as int].0,
                            block@.datums[i as int].1,
                        )),
                decreases nj - j,
            {
                let ix = crate::indexer::vec_at_mut(indexers, j);
                let ghost st = crate::indexer::after_datums::<I>(
                    crate::indexer::after_txs::<I>(vs0[j as int], block@.txs),
                    block@.datums.take(i as int),
                );
                let k = ix.insert_datum(&pair.0, &pair.1);
                proof {
                    let ghost was = kept;
                    if k {
                        assert(I::keeps_datum(
                            st,
                            block@.datums[i as int].0,
                            block@.datums[i as int].1,
                        ));
                        assert(0 <= j < j + 1 && I::keeps_datum(
                            crate::indexer::after_datums::<I>(
                                crate::indexer::after_txs::<I>(vs0[j as int], block@.txs),
                                block@.datums.take(i as int),
                            ),
                            block@.datums[i as int].0,
                            block@.datums[i as int].1,
                        ));
                    }
                    if was {
                        let q0 = choose|q: int|
                            0 <= q < j && I::keeps_datum(
                                crate::indexer::after_datums::<I>(
                                    crate::indexer::after_txs::<I>(#[trigger] vs0[q], block@.txs),
                                    block@.datums.take(i as int),
                                ),
                                block@.datums[i as int].0,
                                block@.datums[i as int].1,
                            );
                        assert(0 <= q0 < j + 1 && I::keeps_datum(
                            crate::indexer::after_datums::<I>(
                                crate::indexer::after_txs::<I>(vs0[q0], block@.txs),
                                block@.datums.take(i as int),
                            ),
                            block@.datums[i as int].0,
                            block@.datums[i as int].1,
                        ));
                    }
                    if !was && !k {
                        if exists|q: int|
                            0 <= q < j + 1 && I::keeps_datum(
                                crate::indexer::after_datums::<I>(
                                    crate::indexer::after_txs::<I>(#[trigger] vs0[q], block@.txs),
                                    block@.datums.take(i as int),
                                ),
                                block@.datums[i as int].0,
                                block@.datums[i as int].1,
                            ) {
                            let q0 = choose|q: int|
                                0 <= q < j + 1 && I::keeps_datum(
                                    crate::indexer::after_datums::<I>(
                                        crate::indexer::after_txs::<I>(
                                            #[trigger] vs0[q],
                                            block@.txs,
                                        ),
                                        block@.datums.take(i as int),
                                    ),
                                    block@.datums[i as int].0,
                                    block@.datums[i as int].1,
                                );
                            assert(q0 == j);
                        }
                    }
                }
                kept = kept || k;
                j = j + 1;
            }
            proof {
                assert(block@.datums.take(i + 1).drop_last() =~= block@.datums.take(i as int));
                assert(block@.datums.take(i + 1).last() == block@.datums[i as int]);
                assert forall|q: int| 0 <= q < indexers@.len() implies (#[trigger] indexers@[q])@
                    == crate::indexer::after_datums::<I>(
                    crate::indexer::after_txs::<I>(vs0[q], block@.txs),
                    block@.datums.take(i + 1),
                ) by {
                    assert(indexers@[q]@ == I::after_insert_datum(
                        crate::indexer::after_datums::<I>(
                            crate::indexer::after_txs::<I>(vs0[q], block@.txs),
                            block@.datums.take(i as int),
                        ),
                        block@.datums[i as int].0,
                        block@.datums[i as int].1,
                    ));
                }
                assert(kept == crate::indexer::datum_vote::<I>(
                    vs0,
                    block@.txs,
                    block@.datums,
                    i as int,
                )) by {
                    if kept {
                        let q0 = choose|q: int|
                            0 <= q < nj && I::keeps_datum(
                                crate::indexer::after_datums::<I>(
                                    crate::indexer::after_txs::<I>(#[trigger] vs0[q], block@.txs),
                                    block@.datums.take(i as int),
                                ),
                                block@.datums[i as int].0,
                                block@.datums[i as int].1,
                            );
                        assert(0 <= q0 < vs0.len() && I::keeps_datum(
                            crate::indexer::after_datums::<I>(
                                crate::indexer::after_txs::<I>(vs0[q0], block@.txs),
                                block@.datums.take(i as int),
                            ),
                            block@.datums[i as int].0,
                            block@.datums[i as int].1,
                        ));
                    }
                    if crate::indexer::datum_vote::<I>(vs0, block@.txs, block@.datums, i as int) {
                        let q0 = choose|q: int|
                            0 <= q < vs0.len() && I::keeps_datum(
                                crate::indexer::after_datums::<I>(
                                    crate::indexer::after_txs::<I>(#[trigger] vs0[q], block@.txs),
                                    block@.datums.take(i as int),
                                ),
                                block@.datums[i as int].0,
                                block@.datums[i as int].1,
                            );
                        assert(0 <= q0 < nj && I::keeps_datum(
                            crate::indexer::after_datums::<I>(
                                crate::indexer::after_txs::<I>(vs0[q0], block@.txs),
                                block@.datums.take(i as int),
                            ),
                            block@.datums[i as int].0,
                            block@.datums[i as int].1,
                        ));
                    }
                }
            }
            if kept {
                let ghost pre_dh = datum_hashes@;
                datum_hashes.push(pair.0.clone());
                proof {
                    assert(seq_views(datum_hashes@) =~= crate::indexer::kept_datum_hashes::<I>(
                        vs0,
                        block@.txs,
                        block@.datums,
                        i + 1,
                    ));
                    assert forall|k: int| 0 <= k < datum_hashes@.len() implies exists|mm: int|
                        0 <= mm < nd && (#[trigger] datum_hashes@[k])@ == block.datums@[mm].0@ by {
                        if k < datum_hashes@.len() - 1 {
                            assert(datum_hashes@[k] == pre_dh[k]);
                            let mm = choose|mm: int|
                                0 <= mm < nd && (#[trigger] pre_dh[k])@ == block.datums@[mm].0@;
                            assert(0 <= mm < nd && datum_hashes@[k]@ == block.datums@[mm].0@);
                        } else {
                            assert(datum_hashes@[k]@ == block.datums@[i as int].0@);
                        }
                    }
                }
            } else {
                proof {
                    assert(seq_views(datum_hashes@) == crate::indexer::kept_datum_hashes::<I>(
                        vs0,
                        block@.txs,
                        block@.datums,
                        i + 1,
                    ));
                }
            }
            i = i + 1;
        }

        // Write the block body and the spine entry.
        let ghost kept_txs = seq_views(tx_hashes@);
        let ghost kept_datums = seq_views(datum_hashes@);
        let ghost txmap = self.volatile_tx@;
        proof {
            assert forall|k: int| 0 <= k < kept_txs.len() implies exists|mm: int|
                0 <= mm < nt && (#[trigger] kept_txs[k]) == block.txs@[mm]@.hash
                    && txmap.contains_key(block.txs@[mm]@.hash) && txmap[block.txs@[mm]@.hash]
                    == block.txs@[mm]@ by {
                assert(tx_hashes@[k]@ == kept_txs[k]);
                let mm = choose|mm: int|
                    0 <= mm < nt && (#[trigger] tx_hashes@[k])@ == block.txs@[mm]@.hash
                        && self.volatile_tx@.contains_key(block.txs@[mm]@.hash)
                        && self.volatile_tx@[block.txs@[mm]@.hash] == block.txs@[mm]@;
                assert(0 <= mm < nt && kept_txs[k] == block.txs@[mm]@.hash
                    && txmap.contains_key(block.txs@[mm]@.hash) && txmap[block.txs@[mm]@.hash]
                    == block.txs@[mm]@);
            }
            assert forall|k1: int, k2: int| 0 <= k1 < k2 < kept_txs.len() implies (
            #[trigger] kept_txs[k1]) != (#[trigger] kept_txs[k2]) by {
                assert(tx_hashes@[k1]@ != tx_hashes@[k2]@);
            }
            assert forall|k: int| 0 <= k < kept_datums.len() implies exists|mm: int|
                0 <= mm < nd && (#[trigger] kept_datums[k]) == block.datums@[mm].0@ by {
                assert(datum_hashes@[k]@ == kept_datums[k]);
                let mm = choose|mm: int|
                    0 <= mm < nd && (#[trigger] datum_hashes@[k])@ == block.datums@[mm].0@;
                assert(0 <= mm < nd && kept_datums[k] == block.datums@[mm].0@);
            }
        }
        let vb = VolatileBlock::parse(block, tx_hashes, datum_hashes);
        let ghost vbv = vb@;
        self.volatile_block.insert(block.hash.clone(), vb);
        self.slots.push((block.slot, block.hash.clone()));

        proof {
            let post = self@;
            let b = block@;
            let bh = b.hash;
            assert(post.txs == txmap);
            assert(post.slots =~= pre@.slots.push((b.slot, bh)));
            assert(post.blocks == pre@.blocks.insert(bh, vbv));
            assert(post.blocks[bh] == vbv);
            assert(vbv.txs == kept_txs && vbv.datums == kept_datums);
            assert forall|k: int| 0 <= k < vbv.txs.len() implies kept_tx_from(
                post,
                b,
                #[trigger] vbv.txs[k],
            ) by {
                assert(kept_txs[k] == vbv.txs[k]);
                let mm = choose|mm: int|
                    0 <= mm < nt && (#[trigger] kept_txs[k]) == block.txs@[mm]@.hash
                        && txmap.contains_key(block.txs@[mm]@.hash) && txmap[block.txs@[mm]@.hash]
                        == block.txs@[mm]@;
                assert(0 <= mm < b.txs.len() && b.txs[mm].hash == vbv.txs[k]
                    && post.txs.contains_key(vbv.txs[k]) && post.txs[vbv.txs[k]] == b.txs[mm]);
            }
            assert forall|k: int| 0 <= k < vbv.txs.len() implies !pre@.txs.contains_key(
                #[trigger] vbv.txs[k],
            ) by {
                assert(kept_txs[k] == vbv.txs[k]);
                let mm = choose|mm: int|
                    0 <= mm < nt && (#[trigger] kept_txs[k]) == block.txs@[mm]@.hash
                        && txmap.contains_key(block.txs@[mm]@.hash) && txmap[block.txs@[mm]@.hash]
                        == block.txs@[mm]@;
                assert(!pre@.txs.contains_key(b.txs[mm].hash));
            }
            assert forall|k: int| 0 <= k < vbv.datums.len() implies datum_of(
                b,
                #[trigger] vbv.datums[k],
            ) by {
                assert(kept_datums[k] == vbv.datums[k]);
                let mm = choose|mm: int|
                    0 <= mm < nd && (#[trigger] kept_datums[k]) == block.datums@[mm].0@;
                assert(0 <= mm < b.datums.len() && b.datums[mm].0 == vbv.datums[k]);
            }
            lemma_forward_inv(pre@, post, b, vbv);
            assert(spec_forward_rel(pre@, post, b));
            assert(block@.txs.len() == nt as int);
            assert(block@.datums.len() == nd as int);
            assert(post.blocks[bh].txs == crate::indexer::kept_tx_hashes::<I>(
                vs0,
                block@.txs,
                block@.txs.len() as int,
            ));
            assert(post.blocks[bh].datums == crate::indexer::kept_datum_hashes::<I>(
                vs0,
                block@.txs,
                block@.datums,
                block@.datums.len() as int,
            ));
            assert(block@.datums.take(nd as int) =~= block@.datums);
            assert forall|q: int| 0 <= q < old(indexers)@.len() implies (
            #[trigger] indexers@[q])@ == crate::indexer::after_datums::<I>(
                crate::indexer::after_txs::<I>(old(indexers)@[q]@, block@.txs),
                block@.datums,
            ) by {
                assert(vs0[q] == old(indexers)@[q]@);
                assert(indexers@[q]@ == crate::indexer::after_datums::<I>(
                    crate::indexer::after_txs::<I>(vs0[q], block@.txs),
                    block@.datums.take(nd as int),
                ));
            }
        }
        Ok(())
    }
}

/// Acceptance of a fresh, monotone block preserves the store invariant.
pub proof fn lemma_forward_inv(pre: DbV, post: DbV, b: BlockV, vbv: VolatileBlockV)
    requires
        pre.inv(),
        fwd_monotonic(pre, b),
        fwd_fresh_block(pre, b),
        fwd_fresh_txs(pre, b),
        post.slots == pre.slots.push((b.slot, b.hash)),
        post.blocks == pre.blocks.insert(b.hash, vbv),
        post.ids == pre.ids,
        vbv.hash == b.hash,
        vbv.slot == b.slot,
        forall|t: Seq<u8>| #[trigger]
            pre.txs.contains_key(t) ==> post.txs.contains_key(t) && post.txs[t] == pre.txs[t],
        forall|t: Seq<u8>| #[trigger]
            post.txs.contains_key(t) ==> pre.txs.contains_key(t) || list_has(vbv.txs, t),
        forall|k: int| 0 <= k < vbv.txs.len() ==> kept_tx_from(post, b, #[trigger] vbv.txs[k]),
        forall|k1: int, k2: int|
            0 <= k1 < k2 < vbv.txs.len() ==> (#[trigger] vbv.txs[k1]) != (#[trigger] vbv.txs[k2]),
        forall|k: int|
            0 <= k < vbv.txs.len() ==> !pre.txs.contains_key(#[trigger] vbv.txs[k]),
    ensures
        post.inv(),
{
    let n = pre.slots.len() as int;
    let bh = b.hash;
    assert forall|i: int, j: int| 0 <= i < j < post.slots.len() implies (
    #[trigger] post.slots[i]).0 < (#[trigger] post.slots[j]).0 by {
        if j < n {
        } else {
            assert(post.slots[j] == (b.slot, bh));
            if i < n - 1 {
                assert(pre.slots[i].0 < pre.slots[n - 1].0);
            }
        }
    }
    assert forall|i: int, j: int| 0 <= i < j < post.slots.len() implies (
    #[trigger] post.slots[i]).1 != (#[trigger] post.slots[j]).1 by {
        if j == n {
            assert(pre.slots[i].1 != bh);
        }
    }
    assert forall|h: Seq<u8>| #[trigger] post.blocks.contains_key(h) implies post.blocks[h].hash
        == h && post.spine_has(post.blocks[h].slot, h) by {
        if h == bh {
            assert((post.slots[n]).0 == vbv.slot && post.slots[n].1 == h);
        } else {
            assert(pre.blocks.contains_key(h));
            let i = choose|i: int|
                0 <= i < pre.slots.len() && (#[trigger] pre.slots[i]).0 == pre.blocks[h].slot
                    && pre.slots[i].1 == h;
            assert((post.slots[i]).0 == post.blocks[h].slot && post.slots[i].1 == h);
        }
    }
    assert forall|h: Seq<u8>, k: int|
        post.blocks.contains_key(h) && 0 <= k < post.blocks[h].txs.len() implies post.txs.contains_key(
        #[trigger] post.blocks[h].txs[k],
    ) by {
        if h == bh {
            assert(kept_tx_from(post, b, vbv.txs[k]));
            assert(post.txs.contains_key(vbv.txs[k]));
        } else {
            assert(pre.blocks.contains_key(h));
            assert(pre.txs.contains_key(pre.blocks[h].txs[k]));
        }
    }
    assert forall|h1: Seq<u8>, k1: int, h2: Seq<u8>, k2: int|
        post.blocks.contains_key(h1) && post.blocks.contains_key(h2) && 0 <= k1 < post.blocks[h1].txs.len()
            && 0 <= k2 < post.blocks[h2].txs.len() && (h1 != h2 || k1 != k2) implies (
    #[trigger] post.blocks[h1].txs[k1]) != (#[trigger] post.blocks[h2].txs[k2]) by {
        if h1 == bh && h2 == bh {
        } else if h1 == bh {
            assert(pre.blocks.contains_key(h2));
            assert(pre.txs.contains_key(pre.blocks[h2].txs[k2]));
            assert(!pre.txs.contains_key(vbv.txs[k1]));
        } else if h2 == bh {
            assert(pre.blocks.contains_key(h1));
            assert(pre.txs.contains_key(pre.blocks[h1].txs[k1]));
            assert(!pre.txs.contains_key(vbv.txs[k2]));
        } else {
            assert(pre.blocks.contains_key(h1) && pre.blocks.contains_key(h2));
        }
    }
    assert forall|t: Seq<u8>| #[trigger] post.txs.contains_key(t) implies exists|h: Seq<u8>, k: int|
        #![trigger post.blocks[h].txs[k]]
        post.blocks.contains_key(h) && 0 <= k < post.blocks[h].txs.len() && post.blocks[h].txs[k]
            == t by {
        if pre.txs.contains_key(t) {
            let (h, k) = choose|h: Seq<u8>, k: int|
                #![trigger pre.blocks[h].txs[k]]
                pre.blocks.contains_key(h) && 0 <= k < pre.blocks[h].txs.len()
                    && pre.blocks[h].txs[k] == t;
            assert(h != bh) by {
                if h == bh {
                    assert(pre.blocks.contains_key(bh));
                    assert(pre.spine_has(pre.blocks[bh].slot, bh));
                    let i = choose|i: int|
                        0 <= i < pre.slots.len() && (#[trigger] pre.slots[i]).0
                            == pre.blocks[bh].slot && pre.slots[i].1 == bh;
                    assert(pre.slots[i].1 != bh);
                }
            }
            assert(post.blocks.contains_key(h) && 0 <= k < post.blocks[h].txs.len()
                && post.blocks[h].txs[k] == t);
        } else {
            let k = choose|k: int| 0 <= k < vbv.txs.len() && vbv.txs[k] == t;
            assert(post.blocks.contains_key(bh) && 0 <= k < post.blocks[bh].txs.len()
                && post.blocks[bh].txs[k] == t);
        }
    }
    assert forall|t: Seq<u8>| #[trigger] post.txs.contains_key(t) implies post.txs[t].hash == t by {
        if pre.txs.contains_key(t) {
        } else {
            let k = choose|k: int| 0 <= k < vbv.txs.len() && vbv.txs[k] == t;
            assert(kept_tx_from(post, b, vbv.txs[k]));
            let i = choose|i: int|
                0 <= i < b.txs.len() && (#[trigger] b.txs[i]).hash == t && post.txs.contains_key(t)
                    && post.txs[t] == b.txs[i];
            assert(post.txs[t] == b.txs[i]);
        }
    }
    assert forall|i: int, j: int|
        0 <= i <= j < post.slots.len() && post.blocks.contains_key(
            (#[trigger] post.slots[i]).1,
        ) implies post.blocks.contains_key((#[trigger] post.slots[j]).1) by {
        if j == n {
        } else {
            assert(pre.slots[i].1 != bh);
            assert(pre.blocks.contains_key(pre.slots[i].1));
            assert(pre.blocks.contains_key(pre.slots[j].1));
            assert(pre.slots[j].1 != bh);
        }
    }
}


/// Removing a key set and then one more key is removing the grown set.
pub proof fn lemma_remove_keys_insert<K, V>(m: Map<K, V>, ks: Set<K>, x: K)
    ensures
        m.remove_keys(ks).remove(x) == m.remove_keys(ks.insert(x)),
{
    assert(m.remove_keys(ks).remove(x) =~= m.remove_keys(ks.insert(x)));
}

/// Removing an empty key set changes nothing.
pub proof fn lemma_remove_keys_empty<K, V>(m: Map<K, V>)
    ensures
        m.remove_keys(Set::empty()) == m,
{
    assert(m.remove_keys(Set::<K>::empty()) =~= m);
}

/// Undoing the newest spine entry (with its body present) preserves the
/// store invariant.
pub proof fn lemma_undo_inv(d: DbV)
    requires
        d.inv(),
        d.slots.len() > 0,
        d.blocks.contains_key(d.slots.last().1),
    ensures
        spec_undo_last(d).inv(),
{
    let n = d.slots.len() as int;
    let hstar = d.slots.last().1;
    let lst = d.blocks[hstar].txs;
    let post = spec_undo_last(d);
    lemma_suffix_keys(lst, 0);
    assert forall|h: Seq<u8>| #[trigger] post.blocks.contains_key(h) implies post.blocks[h].hash
        == h && post.spine_has(post.blocks[h].slot, h) by {
        assert(d.blocks.contains_key(h) && h != hstar);
        let i = choose|i: int|
            0 <= i < d.slots.len() && (#[trigger] d.slots[i]).0 == d.blocks[h].slot && d.slots[i].1
                == h;
        assert(d.slots[n - 1].1 == hstar);
        assert(i != n - 1);
        assert((post.slots[i]).0 == post.blocks[h].slot && post.slots[i].1 == h);
    }
    assert forall|h: Seq<u8>, k: int|
        post.blocks.contains_key(h) && 0 <= k < post.blocks[h].txs.len() implies post.txs.contains_key(
        #[trigger] post.blocks[h].txs[k],
    ) by {
        let t = post.blocks[h].txs[k];
        assert(d.blocks.contains_key(h) && h != hstar);
        assert(d.txs.contains_key(t));
        assert(!suffix_keys(lst, 0).contains(t)) by {
            if suffix_keys(lst, 0).contains(t) {
                let m2 = choose|m2: int| 0 <= m2 < lst.len() && lst[m2] == t;
                assert(d.blocks[h].txs[k] != d.blocks[hstar].txs[m2]);
            }
        }
    }
    assert forall|t: Seq<u8>| #[trigger] post.txs.contains_key(t) implies exists|h: Seq<u8>, k: int|
        #![trigger post.blocks[h].txs[k]]
        post.blocks.contains_key(h) && 0 <= k < post.blocks[h].txs.len() && post.blocks[h].txs[k]
            == t by {
        assert(d.txs.contains_key(t));
        let (h, k) = choose|h: Seq<u8>, k: int|
            #![trigger d.blocks[h].txs[k]]
            d.blocks.contains_key(h) && 0 <= k < d.blocks[h].txs.len() && d.blocks[h].txs[k] == t;
        assert(h != hstar) by {
            if h == hstar {
                assert(suffix_keys(lst, 0).contains(t));
            }
        }
        assert(post.blocks.contains_key(h) && 0 <= k < post.blocks[h].txs.len()
            && post.blocks[h].txs[k] == t);
    }
    assert forall|i: int, j: int|
        0 <= i <= j < post.slots.len() && post.blocks.contains_key(
            (#[trigger] post.slots[i]).1,
        ) implies post.blocks.contains_key((#[trigger] post.slots[j]).1) by {
        assert(d.slots[i].1 != hstar);
        assert(d.blocks.contains_key(d.slots[i].1));
        assert(d.blocks.contains_key(d.slots[j].1));
        assert(d.slots[j].1 != d.slots[n - 1].1);
    }
}

/// How a rollback run ended: it reached the target point, it met a
/// trimmed body, or an indexer refused to undo a transaction.
#[verifier::ext_equal]
pub enum RollbackOutcome {
    Done,
    TooFar,
    Refused,
}

/// The complete result of a rollback run: its outcome, the store it
/// leaves, and the indexer states it leaves.
#[verifier::ext_equal]
pub struct RollbackRun<V> {
    pub outcome: RollbackOutcome,
    pub store: DbV,
    pub ixs: Seq<V>,
    pub detail: Seq<u8>,
}

/// One transaction's undo hooks, across the first `j` indexers in list
/// order: each either undoes the transaction or refuses, which stops
/// the run with the states reached so far.
pub open spec fn rb_tx_hooks<I: Indexer>(
    vs: Seq<<I as View>::V>,
    d: DbV,
    tx: TxV,
    j: int,
) -> (Seq<<I as View>::V>, bool)
    decreases j,
{
    if j <= 0 {
        (vs, true)
    } else {
        let (prev, ok) = rb_tx_hooks::<I>(vs, d, tx, j - 1);
        if !ok {
            (prev, false)
        } else if I::can_delete_tx(prev[j - 1], d, tx) {
            (prev.update(j - 1, I::after_delete_tx(prev[j - 1], d, tx)), true)
        } else {
            (prev, false)
        }
    }
}

/// The undo hooks of the last `n` listed transactions of a block body,
/// newest listed first, each read from the store.
pub open spec fn rb_block_txs<I: Indexer>(
    vs: Seq<<I as View>::V>,
    d: DbV,
    l: Seq<Seq<u8>>,
    n: int,
    nj: int,
) -> (Seq<<I as View>::V>, bool, Seq<u8>)
    decreases n,
{
    if n <= 0 {
        (vs, true, Seq::empty())
    } else {
        let prev = rb_block_txs::<I>(vs, d, l, n - 1, nj);
        if !prev.1 {
            prev
        } else {
            let h = l[l.len() - n];
            let step = rb_tx_hooks::<I>(prev.0, d, d.txs[h], nj);
            if step.1 {
                (step.0, true, Seq::empty())
            } else {
                (step.0, false, h)
            }
        }
    }
}

/// One datum's undo hooks across the first `j` indexers, in list order.
pub open spec fn rb_datum_hooks<I: Indexer>(
    vs: Seq<<I as View>::V>,
    h: Seq<u8>,
    j: int,
) -> Seq<<I as View>::V>
    decreases j,
{
    if j <= 0 {
        vs
    } else {
        let prev = rb_datum_hooks::<I>(vs, h, j - 1);
        prev.update(j - 1, I::after_delete_datum(prev[j - 1], h))
    }
}

/// The undo hooks of the last `n` listed datums of a block body, newest
/// listed first.
pub open spec fn rb_block_datums<I: Indexer>(
    vs: Seq<<I as View>::V>,
    l: Seq<Seq<u8>>,
    n: int,
    nj: int,
) -> Seq<<I as View>::V>
    decreases n,
{
    if n <= 0 {
        vs
    } else {
        rb_datum_hooks::<I>(rb_block_datums::<I>(vs, l, n - 1, nj), l[l.len() - n], nj)
    }
}

/// The complete rollback run to `pslot`, mirroring the engine: undo the
/// newest spine entry's block — every indexer's `delete_tx` over the
/// listed transactions in reverse, then every `delete_datum` in
/// reverse, then the entry, body and transactions leave together — and
/// repeat; stop short at a trimmed body or at the first refusing hook,
/// leaving the store and the indexer states exactly as reached.
pub open spec fn spec_rollback_run<I: Indexer>(
    d: DbV,
    vs: Seq<<I as View>::V>,
    pslot: u64,
    nj: int,
) -> RollbackRun<<I as View>::V>
    decreases d.slots.len(),
{
    if d.slots.len() == 0 || d.slots.last().0 <= pslot {
        RollbackRun { outcome: RollbackOutcome::Done, store: d, ixs: vs, detail: Seq::empty() }
    } else if !d.blocks.contains_key(d.slots.last().1) {
        RollbackRun {
            outcome: RollbackOutcome::TooFar,
            store: d,
            ixs: vs,
            detail: d.slots.last().1,
        }
    } else {
        let body = d.blocks[d.slots.last().1];
        let txres = rb_block_txs::<I>(vs, d, body.txs, body.txs.len() as int, nj);
        if !txres.1 {
            RollbackRun {
                outcome: RollbackOutcome::Refused,
                store: d,
                ixs: txres.0,
                detail: txres.2,
            }
        } else {
            let vs3 = rb_block_datums::<I>(txres.0, body.datums, body.datums.len() as int, nj);
            spec_rollback_run::<I>(spec_undo_last(d), vs3, pslot, nj)
        }
    }
}

/// A refusal sticks: once the hook chain stopped, later indexers leave
/// it exactly where it stopped.
pub proof fn lemma_rb_tx_hooks_stuck<I: Indexer>(
    vs: Seq<<I as View>::V>,
    d: DbV,
    tx: TxV,
    j1: int,
    j2: int,
)
    requires
        0 <= j1 <= j2,
        !rb_tx_hooks::<I>(vs, d, tx, j1).1,
    ensures
        rb_tx_hooks::<I>(vs, d, tx, j2) == rb_tx_hooks::<I>(vs, d, tx, j1),
    decreases j2 - j1,
{
    if j2 > j1 {
        lemma_rb_tx_hooks_stuck::<I>(vs, d, tx, j1, j2 - 1);
    }
}

/// A refusal inside a block sticks across the remaining transactions.
pub proof fn lemma_rb_block_txs_stuck<I: Indexer>(
    vs: Seq<<I as View>::V>,
    d: DbV,
    l: Seq<Seq<u8>>,
    n1: int,
    n2: int,
    nj: int,
)
    requires
        0 <= n1 <= n2,
        !rb_block_txs::<I>(vs, d, l, n1, nj).1,
    ensures
        rb_block_txs::<I>(vs, d, l, n2, nj) == rb_block_txs::<I>(vs, d, l, n1, nj),
    decreases n2 - n1,
{
    if n2 > n1 {
        lemma_rb_block_txs_stuck::<I>(vs, d, l, n1, n2 - 1, nj);
    }
}

/// Unless an indexer refused, the run's store is the plain rollback
/// state; it finishes exactly when the rollback does not reach past
/// retention.
pub proof fn lemma_rollback_run_store<I: Indexer>(
    d: DbV,
    vs: Seq<<I as View>::V>,
    pslot: u64,
    nj: int,
)
    ensures
        spec_rollback_run::<I>(d, vs, pslot, nj).outcome != RollbackOutcome::Refused
            ==> spec_rollback_run::<I>(d, vs, pslot, nj).store == spec_rollback(d, pslot),
        spec_rollback_run::<I>(d, vs, pslot, nj).outcome == RollbackOutcome::Done
            ==> spec_can_rollback(d, pslot),
        spec_rollback_run::<I>(d, vs, pslot, nj).outcome == RollbackOutcome::TooFar
            ==> !spec_can_rollback(d, pslot),
    decreases d.slots.len(),
{
    if d.slots.len() == 0 || d.slots.last().0 <= pslot {
    } else if !d.blocks.contains_key(d.slots.last().1) {
    } else {
        let body = d.blocks[d.slots.last().1];
        let txres = rb_block_txs::<I>(vs, d, body.txs, body.txs.len() as int, nj);
        if txres.1 {
            let vs3 = rb_block_datums::<I>(txres.0, body.datums, body.datums.len() as int, nj);
            lemma_rollback_run_store::<I>(spec_undo_last(d), vs3, pslot, nj);
        }
    }
}

impl Db {
    /// Rewind the store to `point`: undo every spine entry newer than
    /// the point, newest first. For each undone block every indexer
    /// unwinds the kept transactions in reverse order (a later
    /// transaction may spend an earlier one's outputs), then the entry,
    /// the body and the kept transactions leave the store together.
    /// Rolling back to the origin wipes everything, exactly like
    /// [`Db::clear`]; rolling back to a point at or past the tip is a
    /// no-op.
    ///
    /// The whole run — which hooks fire, in what order and state, where
    /// it stops, and what store and indexer states it leaves — is
    /// specified by [`spec_rollback_run`]: reaching a spine entry whose
    /// body was already trimmed fails with [`DbError::RolledBackTooFar`]
    /// carrying the missing body's hash, keeping the blocks undone so
    /// far; an indexer that cannot undo a transaction fails the
    /// operation with [`DbError::Corruption`] carrying that
    /// transaction's hash, keeping the blocks undone before it.
    #[verifier::loop_isolation(false)]
    pub fn roll_backward<I: Indexer>(&mut self, indexers: &mut Vec<I>, point: &Point) -> (r:
        Result<(), DbError>)
        requires
            old(self).wf(),
            crate::indexer::all_inv(old(indexers)@),
        ensures
            final(self).wf(),
            final(self).max_rollback_blocks == old(self).max_rollback_blocks,
            crate::indexer::all_inv(final(indexers)@),
            crate::indexer::ids_of(final(indexers)@) == crate::indexer::ids_of(old(indexers)@),
            final(indexers)@.len() == old(indexers)@.len(),
            ({
                let ids = crate::indexer::ids_of(old(indexers)@);
                let pre = spec_provisioned(old(self)@, ids);
                match point@ {
                    PointV::Origin => r is Ok && final(self)@ == DbV::cleared() && (forall|j: int|
                        0 <= j < old(indexers)@.len() ==> (#[trigger] final(indexers)@[j])@
                            == I::after_clear(old(indexers)@[j]@)),
                    PointV::Specific(pslot, _) => {
                        let run = spec_rollback_run::<I>(
                            pre,
                            crate::indexer::ix_views(old(indexers)@),
                            pslot,
                            old(indexers)@.len() as int,
                        );
                        &&& ((r matches Err(e) && e matches DbError::IndexerIdsMismatch(_, _))
                            <==> !fwd_ids_ok(old(self)@, ids))
                        &&& (r matches Err(e) ==> (e matches DbError::IndexerIdsMismatch(exp, got)
                            ==> old(self)@.ids == Some(seq_views(exp@)) && seq_views(got@) == ids))
                        &&& (!fwd_ids_ok(old(self)@, ids) ==> final(self)@ == old(self)@
                            && final(indexers)@ == old(indexers)@)
                        &&& (fwd_ids_ok(old(self)@, ids) ==> final(self)@ == run.store
                            && crate::indexer::ix_views(final(indexers)@) == run.ixs && (
                        match run.outcome {
                            RollbackOutcome::Done => r is Ok && spec_can_rollback(pre, pslot)
                                && final(self)@ == spec_rollback(pre, pslot),
                            RollbackOutcome::TooFar => (r matches Err(e) && e matches
                                DbError::RolledBackTooFar(h) && h@ == run.detail)
                                && !spec_can_rollback(pre, pslot) && final(self)@ == spec_rollback(
                                pre,
                                pslot,
                            ),
                            RollbackOutcome::Refused => r matches Err(e) && e matches
                                DbError::Corruption(h) && h@ == run.detail,
                        }))
                    },
                }
            }),
    {
        // Rolling back to the origin is a full wipe.
        if point.is_origin() {
            self.clear(indexers);
            return Ok(());
        }
        let pslot: u64 = match point {
            Point::Origin => 0,
            Point::Specific(s, _) => *s,
        };

        // Identity invariant, with first-run provisioning.
        let ghost ids_g = crate::indexer::ids_of(old(indexers)@);
        let mut ids: Vec<String> = Vec::new();
        let nj: usize = indexers.len();
        let mut j: usize = 0;
        while j < nj
            invariant
                *self == *old(self),
                *indexers == *old(indexers),
                0 <= j <= nj,
                ids@.len() == j,
                forall|m: int| 0 <= m < j ==> (#[trigger] ids@[m])@ == old(indexers)@[m].id_spec(),
            decreases nj - j,
        {
            let ix = &indexers[j];
            ids.push(ix.id());
            j = j + 1;
        }
        proof {
            assert(seq_views(ids@) =~~= ids_g);
        }
        match self.assert_indexer_ids(&ids) {
            Ok(()) => (),
            Err(e) => {
                return Err(e);
            },
        }
        let ghost pre = *self;
        let ghost vs0 = crate::indexer::ix_views(old(indexers)@);
        proof {
            assert(pre@ =~= spec_provisioned(old(self)@, ids_g));
            assert(fwd_ids_ok(old(self)@, ids_g));
            assert(crate::indexer::ix_views(indexers@) =~= vs0);
        }
        let ghost pre_ix = *indexers;

        // Undo the spine, newest entry first, down to the point.
        while self.slots.len() > 0 && self.slots[self.slots.len() - 1].0 > pslot
            invariant
                self.wf(),
                self.max_rollback_blocks == pre.max_rollback_blocks,
                self@.ids == pre@.ids,
                indexers@.len() == pre_ix@.len(),
                crate::indexer::all_inv(indexers@),
                forall|q: int|
                    0 <= q < indexers@.len() ==> (#[trigger] indexers@[q]).id_spec()
                        == pre_ix@[q].id_spec(),
                spec_rollback_run::<I>(pre@, vs0, pslot, nj as int) == spec_rollback_run::<I>(
                    self@,
                    crate::indexer::ix_views(indexers@),
                    pslot,
                    nj as int,
                ),
            decreases self.slots@.len(),
        {
            let ghost dcur = self@;
            let ghost vsb = crate::indexer::ix_views(indexers@);
            let n: usize = self.slots.len();
            let slot: u64 = self.slots[n - 1].0;
            let bh = self.slots[n - 1].1.clone();
            proof {
                assert(dcur.slots.last().0 == slot && dcur.slots.last().1 == bh@);
            }

            // A missing body means the rollback reaches past retention.
            let vb = match self.get_volatile_block(&bh) {
                Some(vb) => vb.clone(),
                None => {
                    proof {
                        assert(spec_rollback_run::<I>(dcur, vsb, pslot, nj as int)
                            == RollbackRun::<<I as View>::V> {
                            outcome: RollbackOutcome::TooFar,
                            store: dcur,
                            ixs: vsb,
                            detail: dcur.slots.last().1,
                        });
                        lemma_rollback_run_store::<I>(pre@, vs0, pslot, nj as int);
                    }
                    return Err(DbError::RolledBackTooFar(crate::hash::bytes_dup(bh.as_bytes())));
                },
            };
            let ghost vbv = vb@;
            proof {
                assert(vbv == dcur.blocks[bh@]);
                lemma_suffix_keys(vbv.txs, 0);
            }

            // Unwind every indexer, kept transactions in reverse order;
            // a refusing indexer stops the run here, with the store as
            // it stands.
            let ghost sb_a = *self;
            let m: usize = vb.txs.len();
            let mut k: usize = m;
            proof {
                assert(rb_block_txs::<I>(vsb, dcur, vbv.txs, 0, nj as int) == (
                    vsb,
                    true,
                    Seq::<u8>::empty(),
                ));
            }
            while k > 0
                invariant
                    0 <= k <= m,
                    *self == sb_a,
                    indexers@.len() == pre_ix@.len(),
                    crate::indexer::all_inv(indexers@),
                    forall|q: int|
                        0 <= q < indexers@.len() ==> (#[trigger] indexers@[q]).id_spec()
                            == pre_ix@[q].id_spec(),
                    rb_block_txs::<I>(vsb, dcur, vbv.txs, (m - k) as int, nj as int) == (
                        crate::indexer::ix_views(indexers@),
                        true,
                        Seq::<u8>::empty(),
                    ),
                decreases k,
            {
                k = k - 1;
                proof {
                    assert(dcur.blocks[bh@].txs[k as int] == vbv.txs[k as int]);
                    assert(dcur.txs.contains_key(vbv.txs[k as int]));
                }
                let tx = match self.volatile_tx.get(&vb.txs[k]) {
                    Some(t) => t.clone(),
                    None => unreached(),
                };
                let ghost txv = dcur.txs[vbv.txs[k as int]];
                proof {
                    assert(tx@ == txv);
                    assert(vbv.txs[vbv.txs.len() - ((m - k) as int)] == vbv.txs[k as int]);
                }
                let ghost vstx = crate::indexer::ix_views(indexers@);
                let mut j: usize = 0;
                proof {
                    assert(rb_tx_hooks::<I>(vstx, dcur, txv, 0) == (vstx, true));
                }
                while j < nj
                    invariant
                        0 <= j <= nj,
                        *self == sb_a,
                        indexers@.len() == pre_ix@.len(),
                        crate::indexer::all_inv(indexers@),
                        forall|q: int|
                            0 <= q < indexers@.len() ==> (#[trigger] indexers@[q]).id_spec()
                                == pre_ix@[q].id_spec(),
                        rb_tx_hooks::<I>(vstx, dcur, txv, j as int) == (
                            crate::indexer::ix_views(indexers@),
                            true,
                        ),
                    decreases nj - j,
                {
                    let ghost before = crate::indexer::ix_views(indexers@);
                    let ix = crate::indexer::vec_at_mut(indexers, j);
                    match ix.delete_tx(&*self, &tx) {
                        Ok(()) => {
                            proof {
                                assert(crate::indexer::ix_views(indexers@) =~= before.update(
                                    j as int,
                                    I::after_delete_tx(before[j as int], dcur, txv),
                                ));
                                assert(rb_tx_hooks::<I>(vstx, dcur, txv, j + 1) == (
                                    crate::indexer::ix_views(indexers@),
                                    true,
                                ));
                            }
                        },
                        Err(_) => {
                            proof {
                                assert(crate::indexer::ix_views(indexers@) =~= before);
                                assert(rb_tx_hooks::<I>(vstx, dcur, txv, j + 1) == (before, false));
                                lemma_rb_tx_hooks_stuck::<I>(
                                    vstx,
                                    dcur,
                                    txv,
                                    j + 1,
                                    nj as int,
                                );
                                assert(rb_block_txs::<I>(
                                    vsb,
                                    dcur,
                                    vbv.txs,
                                    (m - k) as int,
                                    nj as int,
                                ) == (before, false, vbv.txs[k as int]));
                                lemma_rb_block_txs_stuck::<I>(
                                    vsb,
                                    dcur,
                                    vbv.txs,
                                    (m - k) as int,
                                    m as int,
                                    nj as int,
                                );
                                assert(spec_rollback_run::<I>(dcur, vsb, pslot, nj as int)
                                    == RollbackRun::<<I as View>::V> {
                                    outcome: RollbackOutcome::Refused,
                                    store: dcur,
                                    ixs: before,
                                    detail: vbv.txs[k as int],
                                });
                            }
                            return Err(DbError::Corruption(crate::hash::bytes_dup(
                                vb.txs[k].as_bytes(),
                            )));
                        },
                    }
                    j = j + 1;
                }
            }

            // Unwind the kept datums in reverse order.
            let md: usize = vb.datums.len();
            let ghost vs2 = crate::indexer::ix_views(indexers@);
            let mut kd: usize = md;
            proof {
                assert(rb_block_datums::<I>(vs2, vbv.datums, 0, nj as int) == vs2);
            }
            while kd > 0
                invariant
                    0 <= kd <= md,
                    *self == sb_a,
                    indexers@.len() == pre_ix@.len(),
                    crate::indexer::all_inv(indexers@),
                    forall|q: int|
                        0 <= q < indexers@.len() ==> (#[trigger] indexers@[q]).id_spec()
                            == pre_ix@[q].id_spec(),
                    rb_block_datums::<I>(vs2, vbv.datums, (md - kd) as int, nj as int)
                        == crate::indexer::ix_views(indexers@),
                decreases kd,
            {
                kd = kd - 1;
                proof {
                    assert(vbv.datums[vbv.datums.len() - ((md - kd) as int)]
                        == vbv.datums[kd as int]);
                }
                let ghost vsd = crate::indexer::ix_views(indexers@);
                let mut j: usize = 0;
                proof {
                    assert(rb_datum_hooks::<I>(vsd, vbv.datums[kd as int], 0) == vsd);
                }
                while j < nj
                    invariant
                        0 <= j <= nj,
                        *self == sb_a,
                        indexers@.len() == pre_ix@.len(),
                        crate::indexer::all_inv(indexers@),
                        forall|q: int|
                            0 <= q < indexers@.len() ==> (#[trigger] indexers@[q]).id_spec()
                                == pre_ix@[q].id_spec(),
                        rb_datum_hooks::<I>(vsd, vbv.datums[kd as int], j as int)
                            == crate::indexer::ix_views(indexers@),
                    decreases nj - j,
                {
                    let ghost before = crate::indexer::ix_views(indexers@);
                    let ix = crate::indexer::vec_at_mut(indexers, j);
                    ix.delete_datum(&vb.datums[kd]);
                    proof {
                        assert(vb.datums@[kd as int]@ == vbv.datums[kd as int]);
                        assert(crate::indexer::ix_views(indexers@) =~= before.update(
                            j as int,
                            I::after_delete_datum(before[j as int], vbv.datums[kd as int]),
                        ));
                        assert(rb_datum_hooks::<I>(vsd, vbv.datums[kd as int], j + 1)
                            == crate::indexer::ix_views(indexers@));
                    }
                    j = j + 1;
                }
                proof {
                    assert(rb_block_datums::<I>(vs2, vbv.datums, (md - kd) as int, nj as int)
                        == crate::indexer::ix_views(indexers@));
                }
            }
            let ghost vs3 = crate::indexer::ix_views(indexers@);

            // Drop the kept transactions, the body, and the spine entry
            // together.
            let ghost sb = *self;
            let mut kr: usize = m;
            proof {
                lemma_remove_keys_empty(sb@.txs);
                assert(suffix_keys(vbv.txs, m as int) =~= Set::<Seq<u8>>::empty());
            }
            while kr > 0
                invariant
                    0 <= kr <= m,
                    self.max_rollback_blocks == sb.max_rollback_blocks,
                    self.slots == sb.slots,
                    self.volatile_block == sb.volatile_block,
                    self.indexer_ids == sb.indexer_ids,
                    self.volatile_tx.wf(),
                    self.volatile_tx@ == sb@.txs.remove_keys(suffix_keys(vbv.txs, kr as int)),
                decreases kr,
            {
                kr = kr - 1;
                self.volatile_tx.remove(&vb.txs[kr]);
                proof {
                    lemma_remove_keys_insert(
                        sb@.txs,
                        suffix_keys(vbv.txs, kr + 1),
                        vbv.txs[kr as int],
                    );
                    assert(suffix_keys(vbv.txs, kr as int) == suffix_keys(vbv.txs, kr + 1).insert(
                        vbv.txs[kr as int],
                    ));
                }
            }
            self.volatile_block.remove(&bh);
            let _popped = self.slots.pop();
            proof {
                assert(slots_v(self.slots@) =~= dcur.slots.drop_last());
                assert(self@ =~= spec_undo_last(dcur));
                lemma_undo_inv(dcur);
                assert(vbv.txs.len() as int == (m - 0) as int);
                assert(spec_rollback_run::<I>(dcur, vsb, pslot, nj as int)
                    == spec_rollback_run::<I>(spec_undo_last(dcur), vs3, pslot, nj as int)) by {
                    assert(rb_block_txs::<I>(vsb, dcur, vbv.txs, vbv.txs.len() as int, nj as int)
                        == (vs2, true, Seq::<u8>::empty()));
                    assert(rb_block_datums::<I>(vs2, vbv.datums, vbv.datums.len() as int, nj as int)
                        == vs3);
                }
            }
        }
        proof {
            assert(spec_rollback_run::<I>(self@, crate::indexer::ix_views(indexers@), pslot, nj as int)
                == RollbackRun::<<I as View>::V> {
                outcome: RollbackOutcome::Done,
                store: self@,
                ixs: crate::indexer::ix_views(indexers@),
                detail: Seq::empty(),
            });
            lemma_rollback_run_store::<I>(pre@, vs0, pslot, nj as int);
        }
        Ok(())
    }
}

/// Some spine index in `[lo, hi)` carries this hash.
pub open spec fn hash_in_range(d: DbV, lo: int, hi: int, h: Seq<u8>) -> bool {
    exists|i: int| lo <= i < hi && i < d.slots.len() && (#[trigger] d.slots[i]).1 == h
}

/// Some present block body on a spine index in `[lo, hi)` lists this
/// transaction hash.
pub open spec fn tx_in_range(d: DbV, lo: int, hi: int, t: Seq<u8>) -> bool {
    exists|h: Seq<u8>| #[trigger]
        d.blocks.contains_key(h) && hash_in_range(d, lo, hi, h) && list_has(d.blocks[h].txs, t)
}

/// The state with the block bodies of spine indices `[idx, cut)` evicted,
/// together with the transactions they listed. The spine itself and the
/// recorded identity list stay.
pub open spec fn trim_upto(d: DbV, cut: int, idx: int) -> DbV {
    DbV {
        slots: d.slots,
        ids: d.ids,
        blocks: Map::new(
            |h: Seq<u8>| d.blocks.contains_key(h) && !hash_in_range(d, idx, cut, h),
            |h: Seq<u8>| d.blocks[h],
        ),
        txs: Map::new(
            |t: Seq<u8>| d.txs.contains_key(t) && !tx_in_range(d, idx, cut, t),
            |t: Seq<u8>| d.txs[t],
        ),
    }
}

/// The state after a trim that retains `kcap` block bodies: every body
/// older than the newest `kcap` spine entries leaves with its listed
/// transactions; the spine, the identity list and everything newer stay.
pub open spec fn spec_trim(d: DbV, kcap: int) -> DbV {
    trim_upto(d, d.slots.len() - kcap, 0)
}

impl Db {
    /// Evict block bodies older than the newest `max_rollback_blocks`
    /// spine entries, walking the old region newest-first and stopping
    /// at the first body that is already gone (everything older was
    /// evicted by an earlier trim). The spine is permanent: only bodies
    /// and their kept transactions fall off; indexer tables are never
    /// touched.
    #[verifier::loop_isolation(false)]
    pub fn trim_volatile(&mut self)
        requires
            old(self).wf(),
        ensures
            final(self).wf(),
            final(self).max_rollback_blocks == old(self).max_rollback_blocks,
            final(self)@ == spec_trim(old(self)@, old(self).max_rollback_blocks as int),
    {
        let len: usize = self.slots.len();
        if len <= self.max_rollback_blocks {
            proof {
                let pre = old(self)@;
                let cut = pre.slots.len() - self.max_rollback_blocks;
                assert forall|h: Seq<u8>| true implies !hash_in_range(pre, 0, cut, h) by {}
                assert forall|t: Seq<u8>| true implies !tx_in_range(pre, 0, cut, t) by {
                    if tx_in_range(pre, 0, cut, t) {
                        let h = choose|h: Seq<u8>| #[trigger]
                            pre.blocks.contains_key(h) && hash_in_range(pre, 0, cut, h) && list_has(
                                pre.blocks[h].txs,
                                t,
                            );
                        assert(!hash_in_range(pre, 0, cut, h));
                    }
                }
                assert(self@.blocks =~= spec_trim(pre, self.max_rollback_blocks as int).blocks);
                assert(self@.txs =~= spec_trim(pre, self.max_rollback_blocks as int).txs);
                assert(self@ =~= spec_trim(pre, self.max_rollback_blocks as int));
            }
            return ;
        }
        let cut: usize = len - self.max_rollback_blocks;
        let ghost pre = old(self)@;
        let mut idx: usize = cut;
        proof {
            assert forall|h: Seq<u8>| true implies !hash_in_range(pre, cut as int, cut as int, h) by {}
            assert forall|t: Seq<u8>| true implies !tx_in_range(pre, cut as int, cut as int, t) by {
                if tx_in_range(pre, cut as int, cut as int, t) {
                    let h = choose|h: Seq<u8>| #[trigger]
                        pre.blocks.contains_key(h) && hash_in_range(pre, cut as int, cut as int, h)
                            && list_has(pre.blocks[h].txs, t);
                    assert(!hash_in_range(pre, cut as int, cut as int, h));
                }
            }
            assert(self@.blocks =~= trim_upto(pre, cut as int, cut as int).blocks);
            assert(self@.txs =~= trim_upto(pre, cut as int, cut as int).txs);
            assert(self@ =~= trim_upto(pre, cut as int, cut as int));
        }
        while idx > 0
            invariant
                0 <= idx <= cut,
                self.max_rollback_blocks == old(self).max_rollback_blocks,
                self.slots == old(self).slots,
                self.indexer_ids == old(self).indexer_ids,
                self.volatile_block.wf(),
                self.volatile_tx.wf(),
                self@ == trim_upto(pre, cut as int, idx as int),
            decreases idx,
        {
            idx = idx - 1;
            let bh = self.slots[idx].1.clone();
            let vb = match self.volatile_block.get(&bh) {
                Some(vb) => vb.clone(),
                None => {
                    // Everything at this index and older was already
                    // evicted by an earlier trim.
                    proof {
                        lemma_trim_break(pre, cut as int, idx as int);
                        assert(self@ =~= trim_upto(pre, cut as int, 0));
                        lemma_trim_inv(pre, cut as int);
                    }
                    return ;
                },
            };
            let ghost vbv = vb@;
            proof {
                assert(pre.blocks.contains_key(bh@) && pre.blocks[bh@] == vbv) by {
                    assert(self@.blocks.contains_key(bh@));
                }
                lemma_suffix_keys(vbv.txs, 0);
            }

            // Drop the transactions this body kept, then the body.
            let ghost sb = *self;
            let m: usize = vb.txs.len();
            let mut kr: usize = m;
            proof {
                lemma_remove_keys_empty(sb@.txs);
                assert(suffix_keys(vbv.txs, m as int) =~= Set::<Seq<u8>>::empty());
            }
            while kr > 0
                invariant
                    0 <= kr <= m,
                    self.max_rollback_blocks == sb.max_rollback_blocks,
                    self.slots == sb.slots,
                    self.volatile_block == sb.volatile_block,
                    self.indexer_ids == sb.indexer_ids,
                    self.volatile_tx.wf(),
                    self.volatile_tx@ == sb@.txs.remove_keys(suffix_keys(vbv.txs, kr as int)),
                decreases kr,
            {
                kr = kr - 1;
                self.volatile_tx.remove(&vb.txs[kr]);
                proof {
                    lemma_remove_keys_insert(
                        sb@.txs,
                        suffix_keys(vbv.txs, kr + 1),
                        vbv.txs[kr as int],
                    );
                    assert(suffix_keys(vbv.txs, kr as int) == suffix_keys(vbv.txs, kr + 1).insert(
                        vbv.txs[kr as int],
                    ));
                }
            }
            self.volatile_block.remove(&bh);
            proof {
                lemma_trim_step(pre, cut as int, idx as int, vbv);
                assert(self@.blocks =~= trim_upto(pre, cut as int, idx as int).blocks);
                assert(self@.txs =~= trim_upto(pre, cut as int, idx as int).txs);
                assert(self@ =~= trim_upto(pre, cut as int, idx as int));
            }
        }
        proof {
            assert(self@ == spec_trim(pre, old(self).max_rollback_blocks as int));
            lemma_trim_inv(pre, cut as int);
        }
    }
}

/// When the body at spine index `idx` is already absent in the
/// partially-trimmed state, the whole old region below it is absent too,
/// so the trim is already complete.
pub proof fn lemma_trim_break(pre: DbV, cut: int, idx: int)
    requires
        pre.inv(),
        0 <= idx < cut <= pre.slots.len(),
        !trim_upto(pre, cut, idx + 1).blocks.contains_key(pre.slots[idx].1),
    ensures
        trim_upto(pre, cut, idx + 1) == trim_upto(pre, cut, 0),
{
    let bh = pre.slots[idx].1;
    assert(!pre.blocks.contains_key(bh)) by {
        if pre.blocks.contains_key(bh) {
            assert(!hash_in_range(pre, idx + 1, cut, bh));
        }
    }
    assert forall|i: int| 0 <= i <= idx implies !pre.blocks.contains_key(
        (#[trigger] pre.slots[i]).1,
    ) by {
        if pre.blocks.contains_key(pre.slots[i].1) {
            assert(pre.blocks.contains_key(pre.slots[idx].1));
        }
    }
    assert forall|h: Seq<u8>|
        pre.blocks.contains_key(h) implies hash_in_range(pre, idx + 1, cut, h) == hash_in_range(
        pre,
        0,
        cut,
        h,
    ) by {
        if hash_in_range(pre, 0, cut, h) {
            let i = choose|i: int| 0 <= i < cut && i < pre.slots.len() && pre.slots[i].1 == h;
            assert(i > idx);
        }
    }
    assert(trim_upto(pre, cut, idx + 1).blocks =~= trim_upto(pre, cut, 0).blocks);
    assert forall|t: Seq<u8>|
        pre.txs.contains_key(t) implies tx_in_range(pre, idx + 1, cut, t) == tx_in_range(
        pre,
        0,
        cut,
        t,
    ) by {
        if tx_in_range(pre, 0, cut, t) {
            let h = choose|h: Seq<u8>| #[trigger]
                pre.blocks.contains_key(h) && hash_in_range(pre, 0, cut, h) && list_has(
                    pre.blocks[h].txs,
                    t,
                );
            assert(hash_in_range(pre, idx + 1, cut, h));
            assert(tx_in_range(pre, idx + 1, cut, t));
        }
    }
    assert(trim_upto(pre, cut, idx + 1).txs =~= trim_upto(pre, cut, 0).txs);
    assert(trim_upto(pre, cut, idx + 1) =~= trim_upto(pre, cut, 0));
}

/// Evicting the present body at spine index `idx`, with the
/// transactions it lists, moves the partial trim one index down.
pub proof fn lemma_trim_step(pre: DbV, cut: int, idx: int, vbv: VolatileBlockV)
    requires
        pre.inv(),
        0 <= idx < cut <= pre.slots.len(),
        pre.blocks.contains_key(pre.slots[idx].1),
        vbv == pre.blocks[pre.slots[idx].1],
    ensures
        trim_upto(pre, cut, idx + 1).blocks.remove(pre.slots[idx].1) == trim_upto(
            pre,
            cut,
            idx,
        ).blocks,
        trim_upto(pre, cut, idx + 1).txs.remove_keys(suffix_keys(vbv.txs, 0)) == trim_upto(
            pre,
            cut,
            idx,
        ).txs,
{
    let bh = pre.slots[idx].1;
    lemma_suffix_keys(vbv.txs, 0);
    assert forall|h: Seq<u8>| h != bh implies hash_in_range(pre, idx, cut, h) == hash_in_range(
        pre,
        idx + 1,
        cut,
        h,
    ) by {
        if hash_in_range(pre, idx, cut, h) {
            let i = choose|i: int| idx <= i < cut && i < pre.slots.len() && pre.slots[i].1 == h;
            assert(i != idx);
        }
    }
    assert(hash_in_range(pre, idx, cut, bh)) by {
        assert(idx <= idx < cut && idx < pre.slots.len() && pre.slots[idx].1 == bh);
    }
    assert(trim_upto(pre, cut, idx + 1).blocks.remove(bh) =~= trim_upto(pre, cut, idx).blocks);
    assert forall|t: Seq<u8>| pre.txs.contains_key(t) implies tx_in_range(pre, idx, cut, t) == (
    tx_in_range(pre, idx + 1, cut, t) || suffix_keys(vbv.txs, 0).contains(t)) by {
        if tx_in_range(pre, idx, cut, t) {
            let h = choose|h: Seq<u8>| #[trigger]
                pre.blocks.contains_key(h) && hash_in_range(pre, idx, cut, h) && list_has(
                    pre.blocks[h].txs,
                    t,
                );
            if h == bh {
                let k = choose|k: int| 0 <= k < vbv.txs.len() && vbv.txs[k] == t;
                assert(suffix_keys(vbv.txs, 0).contains(t));
            } else {
                assert(hash_in_range(pre, idx + 1, cut, h));
                assert(tx_in_range(pre, idx + 1, cut, t));
            }
        }
        if tx_in_range(pre, idx + 1, cut, t) {
            let h = choose|h: Seq<u8>| #[trigger]
                pre.blocks.contains_key(h) && hash_in_range(pre, idx + 1, cut, h) && list_has(
                    pre.blocks[h].txs,
                    t,
                );
            assert(hash_in_range(pre, idx, cut, h));
            assert(tx_in_range(pre, idx, cut, t));
        }
        if suffix_keys(vbv.txs, 0).contains(t) {
            let k = choose|k: int| 0 <= k < vbv.txs.len() && vbv.txs[k] == t;
            assert(pre.blocks.contains_key(bh) && hash_in_range(pre, idx, cut, bh) && list_has(
                pre.blocks[bh].txs,
                t,
            ));
            assert(tx_in_range(pre, idx, cut, t));
        }
    }
    assert(trim_upto(pre, cut, idx + 1).txs.remove_keys(suffix_keys(vbv.txs, 0)) =~= trim_upto(
        pre,
        cut,
        idx,
    ).txs);
}

/// A completed trim preserves the store invariant.
pub proof fn lemma_trim_inv(pre: DbV, cut: int)
    requires
        pre.inv(),
        0 <= cut <= pre.slots.len(),
    ensures
        trim_upto(pre, cut, 0).inv(),
{
    let post = trim_upto(pre, cut, 0);
    assert forall|h: Seq<u8>| #[trigger] post.blocks.contains_key(h) implies post.blocks[h].hash
        == h && post.spine_has(post.blocks[h].slot, h) by {
        assert(pre.blocks.contains_key(h));
        let i = choose|i: int|
            0 <= i < pre.slots.len() && (#[trigger] pre.slots[i]).0 == pre.blocks[h].slot
                && pre.slots[i].1 == h;
        assert((post.slots[i]).0 == post.blocks[h].slot && post.slots[i].1 == h);
    }
    assert forall|h: Seq<u8>, k: int|
        post.blocks.contains_key(h) && 0 <= k < post.blocks[h].txs.len() implies post.txs.contains_key(
        #[trigger] post.blocks[h].txs[k],
    ) by {
        let t = post.blocks[h].txs[k];
        assert(pre.blocks.contains_key(h));
        assert(pre.txs.contains_key(t));
        if tx_in_range(pre, 0, cut, t) {
            let h2 = choose|h2: Seq<u8>| #[trigger]
                pre.blocks.contains_key(h2) && hash_in_range(pre, 0, cut, h2) && list_has(
                    pre.blocks[h2].txs,
                    t,
                );
            assert(h2 != h) by {
                if h2 == h {
                    assert(!hash_in_range(pre, 0, cut, h));
                }
            }
            let k2 = choose|k2: int| 0 <= k2 < pre.blocks[h2].txs.len() && pre.blocks[h2].txs[k2]
                == t;
            assert(pre.blocks[h].txs[k] != pre.blocks[h2].txs[k2]);
        }
    }
    assert forall|t: Seq<u8>| #[trigger] post.txs.contains_key(t) implies exists|h: Seq<u8>, k: int|
        #![trigger post.blocks[h].txs[k]]
        post.blocks.contains_key(h) && 0 <= k < post.blocks[h].txs.len() && post.blocks[h].txs[k]
            == t by {
        assert(pre.txs.contains_key(t));
        let (h, k) = choose|h: Seq<u8>, k: int|
            #![trigger pre.blocks[h].txs[k]]
            pre.blocks.contains_key(h) && 0 <= k < pre.blocks[h].txs.len() && pre.blocks[h].txs[k]
                == t;
        assert(!hash_in_range(pre, 0, cut, h)) by {
            if hash_in_range(pre, 0, cut, h) {
                assert(pre.blocks.contains_key(h) && hash_in_range(pre, 0, cut, h) && list_has(
                    pre.blocks[h].txs,
                    t,
                ));
                assert(tx_in_range(pre, 0, cut, t));
            }
        }
        assert(post.blocks.contains_key(h) && 0 <= k < post.blocks[h].txs.len()
            && post.blocks[h].txs[k] == t);
    }
    assert forall|i: int, j: int|
        0 <= i <= j < post.slots.len() && post.blocks.contains_key(
            (#[trigger] post.slots[i]).1,
        ) implies post.blocks.contains_key((#[trigger] post.slots[j]).1) by {
        assert(pre.blocks.contains_key(pre.slots[i].1));
        assert(pre.blocks.contains_key(pre.slots[j].1));
        assert(!hash_in_range(pre, 0, cut, pre.slots[i].1));
        assert(i >= cut) by {
            if i < cut {
                assert(hash_in_range(pre, 0, cut, pre.slots[i].1));
            }
        }
        assert(!hash_in_range(pre, 0, cut, pre.slots[j].1)) by {
            if hash_in_range(pre, 0, cut, pre.slots[j].1) {
                let i2 = choose|i2: int|
                    0 <= i2 < cut && i2 < pre.slots.len() && pre.slots[i2].1 == pre.slots[j].1;
                assert(i2 < cut <= i <= j);
                assert(pre.slots[i2].1 != pre.slots[j].1);
            }
        }
    }
}

/// The invariant reads the spine and the tables only, never the
/// recorded identity list.
pub proof fn lemma_inv_ignores_ids(d1: DbV, d2: DbV)
    requires
        d1.inv(),
        d2.slots == d1.slots,
        d2.blocks == d1.blocks,
        d2.txs == d1.txs,
    ensures
        d2.inv(),
{
    assert forall|h: Seq<u8>| #[trigger] d2.blocks.contains_key(h) implies d2.blocks[h].hash == h
        && d2.spine_has(d2.blocks[h].slot, h) by {
        assert(d1.blocks.contains_key(h));
        let i = choose|i: int|
            0 <= i < d1.slots.len() && (#[trigger] d1.slots[i]).0 == d1.blocks[h].slot
                && d1.slots[i].1 == h;
        assert((d2.slots[i]).0 == d2.blocks[h].slot && d2.slots[i].1 == h);
    }
    assert forall|t: Seq<u8>| #[trigger] d2.txs.contains_key(t) implies exists|h: Seq<u8>, k: int|
        #![trigger d2.blocks[h].txs[k]]
        d2.blocks.contains_key(h) && 0 <= k < d2.blocks[h].txs.len() && d2.blocks[h].txs[k]
            == t by {
        assert(d1.txs.contains_key(t));
        let (h, k) = choose|h: Seq<u8>, k: int|
            #![trigger d1.blocks[h].txs[k]]
            d1.blocks.contains_key(h) && 0 <= k < d1.blocks[h].txs.len() && d1.blocks[h].txs[k]
                == t;
        assert(d2.blocks.contains_key(h) && 0 <= k < d2.blocks[h].txs.len() && d2.blocks[h].txs[k]
            == t);
    }
}

} // verus!
