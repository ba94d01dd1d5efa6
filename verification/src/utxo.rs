use vstd::prelude::*;

use crate::asset::AssetId;
use crate::asset::AssetIdV;
use crate::asset::AssetV;
use crate::db::Db;
use crate::db::DbError;
use crate::db::DbV;
use crate::hash::bytes_eq;
use crate::indexer::Indexer;
use crate::script::Script;
use crate::script::ScriptHash;
use crate::script::ScriptV;
use crate::table::Table;
use crate::tx::Address;
use crate::tx::Datum;
use crate::tx::DatumHash;
use crate::tx::Tx;
use crate::tx::TxOutput;
use crate::tx::TxOutputPointer;
use crate::tx::TxOutputPointerV;
use crate::tx::TxOutputV;
use crate::tx::TxV;

verus! {

/// Mathematical state of a [`UtxoIndexer`]: the projected utxo set and
/// the two optional filters it was built with.
#[verifier::ext_equal]
pub struct UtxoIndexerV {
    pub utxos: Map<TxOutputPointerV, TxOutputV>,
    pub addresses: Option<Seq<Seq<u8>>>,
    pub assets: Option<Seq<AssetIdV>>,
}

/// The address filter accepts the output: no address list is set, or
/// the output's address is not on it.
pub open spec fn address_ok(v: UtxoIndexerV, o: TxOutputV) -> bool {
    match v.addresses {
        Some(addrs) => !addrs.contains(o.address),
        None => true,
    }
}

/// Some asset of the output matches some listed identifier.
pub open spec fn some_asset_matches(ids: Seq<AssetIdV>, assets: Seq<AssetV>) -> bool {
    exists|i: int, j: int|
        0 <= i < ids.len() && 0 <= j < assets.len() && (#[trigger] ids[i]).matches(
            #[trigger] assets[j],
        )
}

/// The asset filter accepts the output: no asset list is set, or some
/// asset of the output matches a listed identifier.
pub open spec fn asset_ok(v: UtxoIndexerV, o: TxOutputV) -> bool {
    match v.assets {
        Some(ids) => some_asset_matches(ids, o.assets),
        None => true,
    }
}

/// Whether an output passes the indexer's filters: its address must not
/// be on the address list (when one is set), and at least one of its
/// assets must match the asset list (when one is set).
pub open spec fn passes_filter(v: UtxoIndexerV, o: TxOutputV) -> bool {
    address_ok(v, o) && asset_ok(v, o)
}

/// The set of pointers a pointer list holds.
pub open spec fn ptr_list_set(l: Seq<TxOutputPointerV>) -> Set<TxOutputPointerV>
    decreases l.len(),
{
    if l.len() == 0 {
        Set::empty()
    } else {
        ptr_list_set(l.drop_last()).insert(l.last())
    }
}

/// Membership in [`ptr_list_set`] is membership in the list.
pub proof fn lemma_ptr_list_set(l: Seq<TxOutputPointerV>)
    ensures
        forall|t: TxOutputPointerV|
            ptr_list_set(l).contains(t) <==> exists|m: int| 0 <= m < l.len() && l[m] == t,
    decreases l.len(),
{
    if l.len() > 0 {
        lemma_ptr_list_set(l.drop_last());
        assert forall|t: TxOutputPointerV| ptr_list_set(l).contains(t) implies exists|m: int|
            0 <= m < l.len() && l[m] == t by {
            if t == l.last() {
                assert(0 <= l.len() - 1 < l.len() && l[l.len() - 1] == t);
            } else {
                assert(ptr_list_set(l.drop_last()).contains(t));
                let m = choose|m: int| 0 <= m < l.drop_last().len() && l.drop_last()[m] == t;
                assert(0 <= m < l.len() && l[m] == t);
            }
        }
        assert forall|t: TxOutputPointerV| (exists|m: int|
            0 <= m < l.len() && l[m] == t) implies ptr_list_set(l).contains(t) by {
            let m = choose|m: int| 0 <= m < l.len() && l[m] == t;
            if m == l.len() - 1 {
                assert(ptr_list_set(l).contains(l.last()));
            } else {
                assert(l.drop_last()[m] == t);
                assert(ptr_list_set(l.drop_last()).contains(t));
            }
        }
    }
}

/// The pointer at which a transaction produces its `i`-th output.
pub open spec fn produced_at(tx: TxV, p: TxOutputPointerV) -> bool {
    p.hash == tx.hash && p.index < tx.unspent().len()
}

/// The utxo set after the spent pointers of `tx` left and its produced
/// outputs that pass the filter came in.
pub open spec fn after_apply_utxos(v: UtxoIndexerV, tx: TxV) -> Map<TxOutputPointerV, TxOutputV> {
    let consumed = v.utxos.remove_keys(ptr_list_set(tx.spent()));
    Map::new(
        |p: TxOutputPointerV|
            consumed.contains_key(p) || (produced_at(tx, p) && passes_filter(
                v,
                tx.unspent()[p.index as int],
            )),
        |p: TxOutputPointerV|
            if produced_at(tx, p) && passes_filter(v, tx.unspent()[p.index as int]) {
                tx.unspent()[p.index as int]
            } else {
                consumed[p]
            },
    )
}

/// Whether applying `tx` touches the indexer at all: it consumes a held
/// utxo, or it produces an output that passes the filter. This is the
/// keep vote the indexer hands the engine.
pub open spec fn apply_keeps(v: UtxoIndexerV, tx: TxV) -> bool {
    ||| exists|j: int|
        0 <= j < tx.spent().len() && v.utxos.contains_key(#[trigger] tx.spent()[j]) && (forall|
            j2: int,
        |
            0 <= j2 < j ==> tx.spent()[j2] != tx.spent()[j])
    ||| exists|i: int|
        0 <= i < tx.unspent().len() && passes_filter(v, #[trigger] tx.unspent()[i])
}

/// Whether every pointer `tx` spent can be resolved against the store's
/// volatile transactions, which undoing `tx` needs.
pub open spec fn can_undo(db: DbV, tx: TxV) -> bool {
    forall|j: int| 0 <= j < tx.spent().len() ==> (#[trigger] db.tx_output(tx.spent()[j])) is Some
}

/// The `j`-th spent pointer is the first one the store cannot resolve.
pub open spec fn first_unresolvable(db: DbV, tx: TxV, j: int) -> bool {
    &&& 0 <= j < tx.spent().len()
    &&& db.tx_output(tx.spent()[j]) is None
    &&& forall|j2: int| 0 <= j2 < j ==> (#[trigger] db.tx_output(tx.spent()[j2])) is Some
}

/// The utxo set after `tx` was undone: what it spent is restored from
/// the store (filtered as on the way in), and what it produced leaves.
pub open spec fn after_undo_utxos(v: UtxoIndexerV, db: DbV, tx: TxV) -> Map<
    TxOutputPointerV,
    TxOutputV,
> {
    let restored = Map::new(
        |p: TxOutputPointerV|
            v.utxos.contains_key(p) || (ptr_list_set(tx.spent()).contains(p)
                && db.tx_output(p) is Some && passes_filter(v, db.tx_output(p)->0)),
        |p: TxOutputPointerV|
            if ptr_list_set(tx.spent()).contains(p) && db.tx_output(p) is Some
                && passes_filter(v, db.tx_output(p)->0) {
                db.tx_output(p)->0
            } else {
                v.utxos[p]
            },
    );
    restored.remove_keys(Set::new(|p: TxOutputPointerV| produced_at(tx, p)))
}

/// The reference indexer: projects the currently unspent outputs of
/// valid transactions, optionally restricted by an address list (outputs
/// to a listed address are skipped) and an asset list (only outputs
/// carrying a listed asset are kept).
pub struct UtxoIndexer {
    pub utxos: Table<TxOutputPointer, TxOutput>,
    pub addresses: Option<Vec<Address>>,
    pub assets: Option<Vec<AssetId>>,
}

impl View for UtxoIndexer {
    type V = UtxoIndexerV;

    open spec fn view(&self) -> UtxoIndexerV {
        UtxoIndexerV {
            utxos: self.utxos@,
            addresses: match self.addresses {
                Some(ref v) => Some(crate::tx::seq_views(v@)),
                None => None,
            },
            assets: match self.assets {
                Some(ref v) => Some(crate::tx::seq_views(v@)),
                None => None,
            },
        }
    }
}

/// Builds a [`UtxoIndexer`], collecting optional address and asset
/// filters.
pub struct UtxoIndexerBuilder {
    pub addresses: Option<Vec<Address>>,
    pub assets: Option<Vec<AssetId>>,
}

impl UtxoIndexerBuilder {
    /// Start with no filters.
    pub fn new() -> (r: Self)
        ensures
            r.addresses is None,
            r.assets is None,
    {
        UtxoIndexerBuilder { addresses: None, assets: None }
    }

    /// Add one address to the address filter.
    pub fn address(self, addresses: Address) -> (r: Self)
        ensures
            r.assets == self.assets,
            match (self.addresses, r.addresses) {
                (Some(before), Some(after)) => after@ == before@.push(addresses),
                (None, Some(after)) => after@ == Seq::empty().push(addresses),
                _ => false,
            },
    {
        let mut list = match self.addresses {
            Some(v) => v,
            None => Vec::new(),
        };
        list.push(addresses);
        UtxoIndexerBuilder { addresses: Some(list), assets: self.assets }
    }

    /// Add one asset identifier to the asset filter.
    pub fn asset(self, assets: AssetId) -> (r: Self)
        ensures
            r.addresses == self.addresses,
            match (self.assets, r.assets) {
                (Some(before), Some(after)) => after@ == before@.push(assets),
                (None, Some(after)) => after@ == Seq::empty().push(assets),
                _ => false,
            },
    {
        let mut list = match self.assets {
            Some(v) => v,
            None => Vec::new(),
        };
        list.push(assets);
        UtxoIndexerBuilder { addresses: self.addresses, assets: Some(list) }
    }

    /// Finish: an indexer with an empty utxo set and these filters.
    pub fn build(self) -> (r: UtxoIndexer)
        ensures
            r.wf(),
            r@.utxos == Map::<TxOutputPointerV, TxOutputV>::empty(),
            r@.addresses == (match self.addresses {
                Some(ref v) => Some(crate::tx::seq_views(v@)),
                None => None::<Seq<Seq<u8>>>,
            }),
            r@.assets == (match self.assets {
                Some(ref v) => Some(crate::tx::seq_views(v@)),
                None => None::<Seq<AssetIdV>>,
            }),
    {
        UtxoIndexer { utxos: Table::new(), addresses: self.addresses, assets: self.assets }
    }
}

impl UtxoIndexer {
    /// The internal well-formedness: the utxo table keeps unique keys.
    pub open spec fn wf(&self) -> bool {
        self.utxos.wf()
    }

    /// The projected utxo set, as stored (pointer, output) pairs.
    pub fn utxos(&self) -> (r: &Vec<(TxOutputPointer, TxOutput)>)
        ensures
            r@.len() == self.utxos.pairs().len(),
            forall|i: int|
                0 <= i < r@.len() ==> #[trigger] r@[i] == self.utxos.pairs()[i],
    {
        self.utxos.entries()
    }

    /// Look one pointer up in the projected utxo set.
    pub fn utxo(&self, pointer: &TxOutputPointer) -> (r: Option<&TxOutput>)
        requires
            self.wf(),
        ensures
            match r {
                Some(o) => self@.utxos.contains_key(pointer@) && o@ == self@.utxos[pointer@],
                None => !self@.utxos.contains_key(pointer@),
            },
    {
        self.utxos.get(pointer)
    }

    /// Whether this output passes the configured filters.
    #[verifier::loop_isolation(false)]
    fn filter(&self, output: &TxOutput) -> (r: bool)
        ensures
            r == passes_filter(self@, output@),
    {
        match &self.addresses {
            Some(addrs) => {
                let n: usize = addrs.len();
                let mut i: usize = 0;
                while i < n
                    invariant
                        0 <= i <= n,
                        n == addrs@.len(),
                        forall|j: int| 0 <= j < i ==> (#[trigger] addrs@[j])@ != output.address@,
                    decreases n - i,
                {
                    if bytes_eq(&addrs[i], &output.address) {
                        proof {
                            let ghost av = crate::tx::seq_views(addrs@);
                            assert(av[i as int] == output@.address);
                            assert(av.contains(output@.address));
                        }
                        return false;
                    }
                    i = i + 1;
                }
                proof {
                    let av = crate::tx::seq_views(addrs@);
                    assert(!av.contains(output@.address)) by {
                        if av.contains(output@.address) {
                            let j = choose|j: int| 0 <= j < av.len() && av[j] == output@.address;
                            assert(addrs@[j]@ == output@.address);
                        }
                    }
                }
            },
            None => (),
        }
        match &self.assets {
            Some(ids) => {
                let n: usize = ids.len();
                let mut i: usize = 0;
                while i < n
                    invariant
                        0 <= i <= n,
                        n == ids@.len(),
                        forall|a: int, b: int|
                            0 <= a < i && 0 <= b < output.assets@.len() ==> !(
                            #[trigger] ids@[a])@.matches((#[trigger] output.assets@[b])@),
                    decreases n - i,
                {
                    let na: usize = output.assets.len();
                    let mut b: usize = 0;
                    while b < na
                        invariant
                            0 <= b <= na,
                            na == output.assets@.len(),
                            i < n,
                            forall|c: int|
                                0 <= c < b ==> !ids@[i as int]@.matches(
                                    (#[trigger] output.assets@[c])@,
                                ),
                        decreases na - b,
                    {
                        if ids[i].matches(&output.assets[b]) {
                            proof {
                                let iv = crate::tx::seq_views(ids@);
                                let ov = output@.assets;
                                assert(self@.assets == Some(iv));
                                assert(iv[i as int].matches(ov[b as int]));
                                assert(some_asset_matches(iv, ov));
                                assert(asset_ok(self@, output@));
                                assert(address_ok(self@, output@));
                            }
                            return true;
                        }
                        b = b + 1;
                    }
                    i = i + 1;
                }
                proof {
                    let iv = crate::tx::seq_views(ids@);
                    let ov = output@.assets;
                    assert(!some_asset_matches(iv, ov)) by {
                        if some_asset_matches(iv, ov) {
                            let (a, b) = choose|a: int, b: int|
                                0 <= a < iv.len() && 0 <= b < ov.len() && (#[trigger] iv[a]).matches(
                                    #[trigger] ov[b],
                                );
                            assert(ids@[a]@.matches((output.assets@[b])@));
                        }
                    }
                    assert(self@.assets == Some(iv));
                }
                false
            },
            None => true,
        }
    }
}

/// The utxo set when the first `upto` spent pointers left and the first
/// `prod` produced outputs (those passing the filter) came in.
pub open spec fn partial_apply(v: UtxoIndexerV, tx: TxV, upto: int, prod: int) -> Map<
    TxOutputPointerV,
    TxOutputV,
> {
    let consumed = v.utxos.remove_keys(ptr_list_set(tx.spent().take(upto)));
    Map::new(
        |p: TxOutputPointerV|
            consumed.contains_key(p) || (p.hash == tx.hash && p.index < prod && p.index
                < tx.unspent().len() && passes_filter(v, tx.unspent()[p.index as int])),
        |p: TxOutputPointerV|
            if p.hash == tx.hash && p.index < prod && p.index < tx.unspent().len()
                && passes_filter(v, tx.unspent()[p.index as int]) {
                tx.unspent()[p.index as int]
            } else {
                consumed[p]
            },
    )
}

/// A held utxo among the first `upto` spent pointers, not repeated
/// earlier in the list: the consume side of the keep vote.
pub open spec fn consume_keeps(v: UtxoIndexerV, tx: TxV, upto: int) -> bool {
    exists|j: int|
        0 <= j < upto && v.utxos.contains_key(#[trigger] tx.spent()[j]) && (forall|j2: int|
            0 <= j2 < j ==> tx.spent()[j2] != tx.spent()[j])
}

/// A produced output among the first `prod` that passes the filter: the
/// insert side of the keep vote.
pub open spec fn insert_keeps(v: UtxoIndexerV, tx: TxV, prod: int) -> bool {
    exists|i: int| 0 <= i < prod && i < tx.unspent().len() && passes_filter(v, #[trigger] tx.unspent()[i])
}

impl UtxoIndexer {
    /// Apply one transaction: what it spends leaves the utxo set, and
    /// every output it produces that passes the filters comes in under
    /// its pointer. The result reports whether anything was consumed or
    /// kept, which is the indexer's keep vote to the engine.
    #[verifier::loop_isolation(false)]
    pub fn apply_tx(&mut self, tx: &Tx) -> (kept: bool)
        requires
            old(self).wf(),
        ensures
            final(self).wf(),
            final(self)@.addresses == old(self)@.addresses,
            final(self)@.assets == old(self)@.assets,
            final(self)@.utxos == after_apply_utxos(old(self)@, tx@),
            kept == apply_keeps(old(self)@, tx@),
    {
        let ghost pre = *self;
        let mut kept = false;

        // Mark what the transaction spends as spent.
        let spent = tx.spent();
        let ns: usize = spent.len();
        proof {
            assert(crate::tx::seq_views(spent@) == tx@.spent());
            assert(tx@.spent().take(0) =~= Seq::<TxOutputPointerV>::empty());
            crate::db::lemma_remove_keys_empty(pre@.utxos);
            assert(self.utxos@ == pre@.utxos.remove_keys(ptr_list_set(tx@.spent().take(0))));
        }
        let mut j: usize = 0;
        while j < ns
            invariant
                0 <= j <= ns,
                self.addresses == pre.addresses,
                self.assets == pre.assets,
                self.utxos.wf(),
                self.utxos@ == pre@.utxos.remove_keys(ptr_list_set(tx@.spent().take(j as int))),
                kept == consume_keeps(pre@, tx@, j as int),
            decreases ns - j,
        {
            let ghost cur = self.utxos@;
            let ghost pset = ptr_list_set(tx@.spent().take(j as int));
            let was_present = self.utxos.remove(&spent[j]);
            proof {
                let sv = tx@.spent();
                assert(spent@[j as int]@ == sv[j as int]);
                assert(sv.take(j + 1).drop_last() =~= sv.take(j as int));
                assert(sv.take(j + 1).last() == sv[j as int]);
                assert(ptr_list_set(sv.take(j + 1)) == pset.insert(sv[j as int]));
                crate::db::lemma_remove_keys_insert(pre@.utxos, pset, sv[j as int]);
                lemma_ptr_list_set(sv.take(j as int));
                if was_present {
                    assert(pre@.utxos.contains_key(sv[j as int]));
                    assert(!pset.contains(sv[j as int]));
                    assert forall|j2: int| 0 <= j2 < j implies sv[j2] != sv[j as int] by {
                        assert(sv.take(j as int)[j2] == sv[j2]);
                    }
                    assert(consume_keeps(pre@, tx@, j + 1));
                } else {
                    if consume_keeps(pre@, tx@, j + 1) && !consume_keeps(pre@, tx@, j as int) {
                        let jw = choose|jw: int|
                            0 <= jw < j + 1 && pre@.utxos.contains_key(#[trigger] sv[jw]) && (
                            forall|j2: int| 0 <= j2 < jw ==> sv[j2] != sv[jw]);
                        assert(jw == j);
                        assert(!pset.contains(sv[j as int])) by {
                            if pset.contains(sv[j as int]) {
                                let mw = choose|mw: int|
                                    0 <= mw < sv.take(j as int).len() && sv.take(j as int)[mw]
                                        == sv[j as int];
                                assert(sv[mw] == sv[j as int]);
                            }
                        }
                        assert(cur.contains_key(sv[j as int]));
                    }
                }
            }
            kept = kept || was_present;
            j = j + 1;
        }
        proof {
            assert(tx@.spent().take(ns as int) =~= tx@.spent());
        }

        // Add what the transaction produces, filtered.
        let unspent = tx.unspent();
        let no: usize = unspent.len();
        let ghost consumed_map = self.utxos@;
        proof {
            assert(crate::tx::seq_views(unspent@) == tx@.unspent());
            assert(self.utxos@ =~= partial_apply(pre@, tx@, ns as int, 0));
        }
        let mut i: usize = 0;
        let mut kept_out = false;
        while i < no
            invariant
                0 <= i <= no,
                self.addresses == pre.addresses,
                self.assets == pre.assets,
                self.utxos.wf(),
                self.utxos@ == partial_apply(pre@, tx@, ns as int, i as int),
                kept_out == insert_keeps(pre@, tx@, i as int),
            decreases no - i,
        {
            let output = &unspent[i];
            proof {
                assert(output@ == tx@.unspent()[i as int]);
                assert(self@.addresses == pre@.addresses && self@.assets == pre@.assets);
            }
            let passes = self.filter(output);
            if passes {
                let pointer = TxOutputPointer::new(tx.hash.clone(), i);
                self.utxos.insert(pointer, output.clone());
                proof {
                    let pv = TxOutputPointerV { hash: tx@.hash, index: i as u64 };
                    assert(passes_filter(pre@, tx@.unspent()[i as int]));
                    assert(partial_apply(pre@, tx@, ns as int, i as int).insert(pv, output@)
                        =~= partial_apply(pre@, tx@, ns as int, i + 1));
                    assert(insert_keeps(pre@, tx@, i + 1));
                }
                kept_out = true;
            } else {
                proof {
                    assert(partial_apply(pre@, tx@, ns as int, i as int) =~= partial_apply(
                        pre@,
                        tx@,
                        ns as int,
                        i + 1,
                    ));
                    if insert_keeps(pre@, tx@, i + 1) && !insert_keeps(pre@, tx@, i as int) {
                        let iw = choose|iw: int|
                            0 <= iw < i + 1 && iw < tx@.unspent().len() && passes_filter(
                                pre@,
                                #[trigger] tx@.unspent()[iw],
                            );
                        assert(iw == i);
                    }
                }
            }
            i = i + 1;
        }
        proof {
            assert(self.utxos@ =~= after_apply_utxos(pre@, tx@));
            assert(kept || kept_out == apply_keeps(pre@, tx@)) by {
                if apply_keeps(pre@, tx@) {
                    assert(consume_keeps(pre@, tx@, ns as int) || insert_keeps(
                        pre@,
                        tx@,
                        no as int,
                    ));
                }
                if consume_keeps(pre@, tx@, ns as int) || insert_keeps(pre@, tx@, no as int) {
                    assert(apply_keeps(pre@, tx@));
                }
            }
        }
        kept || kept_out
    }
}

/// The utxo set when the first `upto` spent pointers were restored from
/// the store (filtered as on the way in).
pub open spec fn partial_restore(v: UtxoIndexerV, db: DbV, tx: TxV, upto: int) -> Map<
    TxOutputPointerV,
    TxOutputV,
> {
    Map::new(
        |p: TxOutputPointerV|
            v.utxos.contains_key(p) || (ptr_list_set(tx.spent().take(upto)).contains(p)
                && db.tx_output(p) is Some && passes_filter(v, db.tx_output(p)->0)),
        |p: TxOutputPointerV|
            if ptr_list_set(tx.spent().take(upto)).contains(p) && db.tx_output(p) is Some
                && passes_filter(v, db.tx_output(p)->0) {
                db.tx_output(p)->0
            } else {
                v.utxos[p]
            },
    )
}

/// The pointers of the first `upto` outputs a transaction produced.
pub open spec fn prod_set(tx: TxV, upto: int) -> Set<TxOutputPointerV> {
    Set::new(|p: TxOutputPointerV| p.hash == tx.hash && p.index < upto && p.index < tx.unspent().len())
}

impl UtxoIndexer {
    /// Undo one transaction: what it spent is looked up in the volatile
    /// store and restored (filtered as on the way in), and the pointers
    /// it produced leave the utxo set. Fails without touching anything
    /// when a spent pointer cannot be resolved against the store.
    #[verifier::loop_isolation(false)]
    pub fn undo_tx(&mut self, db: &Db, tx: &Tx) -> (r: Result<(), DbError>)
        requires
            old(self).inv(),
            db.tables_wf(),
        ensures
            final(self).inv(),
            final(self)@.addresses == old(self)@.addresses,
            final(self)@.assets == old(self)@.assets,
            match r {
                Ok(()) => can_undo(db@, tx@) && final(self)@.utxos == after_undo_utxos(
                    old(self)@,
                    db@,
                    tx@,
                ),
                Err(e) => !can_undo(db@, tx@) && final(self)@ == old(self)@ && (e matches
                    DbError::Corruption(h) && exists|j: int| #[trigger]
                    first_unresolvable(db@, tx@, j) && h@ == tx@.spent()[j].hash),
            },
    {
        let ghost pre = *self;
        let spent = tx.spent();
        let ns: usize = spent.len();
        proof {
            assert(crate::tx::seq_views(spent@) == tx@.spent());
        }

        // Every spent pointer must resolve, or the store lost a record
        // the spine still references.
        let mut j: usize = 0;
        while j < ns
            invariant
                *self == pre,
                0 <= j <= ns,
                forall|j2: int|
                    0 <= j2 < j ==> (#[trigger] db@.tx_output(tx@.spent()[j2])) is Some,
            decreases ns - j,
        {
            match db.get_volatile_tx_output(&spent[j]) {
                Ok(Some(_)) => (),
                Ok(None) => {
                    proof {
                        assert(spent@[j as int]@ == tx@.spent()[j as int]);
                        assert(db@.tx_output(tx@.spent()[j as int]) is None);
                        assert(first_unresolvable(db@, tx@, j as int));
                    }
                    return Err(DbError::Corruption(crate::hash::bytes_dup(&spent[j].hash.bytes)));
                },
                Err(_) => {
                    proof {
                        assert(spent@[j as int]@ == tx@.spent()[j as int]);
                        assert(db@.tx_output(tx@.spent()[j as int]) is None);
                        assert(first_unresolvable(db@, tx@, j as int));
                    }
                    return Err(DbError::Corruption(crate::hash::bytes_dup(&spent[j].hash.bytes)));
                },
            }
            j = j + 1;
        }
        proof {
            assert(can_undo(db@, tx@));
        }

        // Restore what the transaction had spent.
        proof {
            assert(tx@.spent().take(0) =~= Seq::<TxOutputPointerV>::empty());
            assert(self.utxos@ =~= partial_restore(pre@, db@, tx@, 0));
        }
        let mut j: usize = 0;
        while j < ns
            invariant
                0 <= j <= ns,
                self.addresses == pre.addresses,
                self.assets == pre.assets,
                self.utxos.wf(),
                self.utxos@ == partial_restore(pre@, db@, tx@, j as int),
            decreases ns - j,
        {
            proof {
                assert(spent@[j as int]@ == tx@.spent()[j as int]);
                assert(db@.tx_output(tx@.spent()[j as int]) is Some);
            }
            let out = match db.get_volatile_tx_output(&spent[j]) {
                Ok(Some(o)) => o,
                Ok(None) => unreached(),
                Err(_) => unreached(),
            };
            proof {
                let sv = tx@.spent();
                assert(spent@[j as int]@ == sv[j as int]);
                assert(out@ == db@.tx_output(sv[j as int])->0);
                assert(self@.addresses == pre@.addresses && self@.assets == pre@.assets);
                assert(sv.take(j + 1).drop_last() =~= sv.take(j as int));
                assert(sv.take(j + 1).last() == sv[j as int]);
                assert(ptr_list_set(sv.take(j + 1)) == ptr_list_set(sv.take(j as int)).insert(
                    sv[j as int],
                ));
            }
            let passes = self.filter(out);
            if passes {
                let o2 = out.clone();
                self.utxos.insert(spent[j].clone(), o2);
                proof {
                    assert(partial_restore(pre@, db@, tx@, j as int).insert(
                        tx@.spent()[j as int],
                        out@,
                    ) =~= partial_restore(pre@, db@, tx@, j + 1));
                }
            } else {
                proof {
                    assert(partial_restore(pre@, db@, tx@, j as int) =~= partial_restore(
                        pre@,
                        db@,
                        tx@,
                        j + 1,
                    ));
                }
            }
            j = j + 1;
        }
        proof {
            assert(tx@.spent().take(ns as int) =~= tx@.spent());
            assert(partial_restore(pre@, db@, tx@, ns as int) == partial_restore(
                pre@,
                db@,
                tx@,
                tx@.spent().len() as int,
            ));
        }

        // Remove the pointers the transaction produced.
        let ghost restored = self.utxos@;
        let unspent = tx.unspent();
        let no: usize = unspent.len();
        proof {
            assert(crate::tx::seq_views(unspent@) == tx@.unspent());
            assert(self.utxos@ =~= restored.remove_keys(prod_set(tx@, 0)));
        }
        let mut i: usize = 0;
        while i < no
            invariant
                0 <= i <= no,
                self.addresses == pre.addresses,
                self.assets == pre.assets,
                self.utxos.wf(),
                no == tx@.unspent().len(),
                self.utxos@ == restored.remove_keys(prod_set(tx@, i as int)),
            decreases no - i,
        {
            let pointer = TxOutputPointer::new(tx.hash.clone(), i);
            self.utxos.remove(&pointer);
            proof {
                let pv = TxOutputPointerV { hash: tx@.hash, index: i as u64 };
                assert(pointer@ == pv);
                assert(restored.remove_keys(prod_set(tx@, i as int)).remove(pv) =~= restored.remove_keys(
                    prod_set(tx@, i + 1),
                ));
            }
            i = i + 1;
        }
        proof {
            assert(prod_set(tx@, no as int) =~= Set::new(
                |p: TxOutputPointerV| produced_at(tx@, p),
            ));
            assert(self.utxos@ == after_undo_utxos(pre@, db@, tx@));
        }
        Ok(())
    }

    /// Wipe the projected utxo set; the filters stay.
    pub fn wipe(&mut self)
        ensures
            final(self).inv(),
            final(self)@.addresses == old(self)@.addresses,
            final(self)@.assets == old(self)@.assets,
            final(self)@.utxos == Map::<TxOutputPointerV, TxOutputV>::empty(),
    {
        self.utxos.clear();
    }
}

impl Indexer for UtxoIndexer {
    open spec fn inv(&self) -> bool {
        self.wf()
    }

    open spec fn id_spec(&self) -> Seq<char> {
        "utxo"@
    }

    open spec fn keeps_tx(v: UtxoIndexerV, tx: TxV) -> bool {
        apply_keeps(v, tx)
    }

    open spec fn after_insert_tx(v: UtxoIndexerV, tx: TxV) -> UtxoIndexerV {
        UtxoIndexerV { utxos: after_apply_utxos(v, tx), ..v }
    }

    open spec fn can_delete_tx(v: UtxoIndexerV, db: DbV, tx: TxV) -> bool {
        can_undo(db, tx)
    }

    open spec fn after_delete_tx(v: UtxoIndexerV, db: DbV, tx: TxV) -> UtxoIndexerV {
        UtxoIndexerV { utxos: after_undo_utxos(v, db, tx), ..v }
    }

    open spec fn keeps_datum(v: UtxoIndexerV, hash: Seq<u8>, datum: Seq<u8>) -> bool {
        false
    }

    open spec fn after_insert_datum(v: UtxoIndexerV, hash: Seq<u8>, datum: Seq<u8>) -> UtxoIndexerV {
        v
    }

    open spec fn after_delete_datum(v: UtxoIndexerV, hash: Seq<u8>) -> UtxoIndexerV {
        v
    }

    open spec fn keeps_script(v: UtxoIndexerV, hash: Seq<u8>, script: ScriptV) -> bool {
        false
    }

    open spec fn after_insert_script(v: UtxoIndexerV, hash: Seq<u8>, script: ScriptV) -> UtxoIndexerV {
        v
    }

    open spec fn after_delete_script(v: UtxoIndexerV, hash: Seq<u8>) -> UtxoIndexerV {
        v
    }

    open spec fn after_clear(v: UtxoIndexerV) -> UtxoIndexerV {
        UtxoIndexerV { utxos: Map::empty(), ..v }
    }

    fn id(&self) -> (r: String) {
        String::from_str("utxo")
    }

    fn insert_tx(&mut self, tx: &Tx) -> (r: bool) {
        let kept = self.apply_tx(tx);
        proof {
            assert(self@ =~= UtxoIndexerV { utxos: after_apply_utxos(old(self)@, tx@), ..old(self)@ });
        }
        kept
    }

    fn delete_tx(&mut self, db: &Db, tx: &Tx) -> (r: Result<(), DbError>) {
        let r = self.undo_tx(db, tx);
        proof {
            if r is Ok {
                assert(self@ =~= UtxoIndexerV {
                    utxos: after_undo_utxos(old(self)@, db@, tx@),
                    ..old(self)@
                });
            }
        }
        r
    }

    fn insert_datum(&mut self, hash: &DatumHash, datum: &Datum) -> (r: bool) {
        false
    }

    fn delete_datum(&mut self, hash: &DatumHash) {
    }

    fn insert_script(&mut self, hash: &ScriptHash, script: &Script) -> (r: bool) {
        false
    }

    fn delete_script(&mut self, hash: &ScriptHash) {
    }

    fn clear(&mut self) {
        self.wipe();
        proof {
            assert(self@ =~= UtxoIndexerV {
                utxos: Map::<TxOutputPointerV, TxOutputV>::empty(),
                ..old(self)@
            });
        }
    }
}

/// The transaction spends this pointer.
pub open spec fn tx_spends(tx: TxV, p: TxOutputPointerV) -> bool {
    exists|k: int| 0 <= k < tx.spent().len() && tx.spent()[k] == p
}

/// The transaction produces this pointer with an output that passes the
/// filters of `v`.
pub open spec fn produced_passing(v: UtxoIndexerV, tx: TxV, p: TxOutputPointerV) -> bool {
    produced_at(tx, p) && passes_filter(v, tx.unspent()[p.index as int])
}

/// Some transaction of the sequence, at an index beyond `i`, spends the
/// pointer.
pub open spec fn spent_after(txs: Seq<TxV>, i: int, p: TxOutputPointerV) -> bool {
    exists|j: int| i < j < txs.len() && tx_spends(#[trigger] txs[j], p)
}

/// Some transaction of the sequence produces the pointer acceptably and
/// no later one spends it.
pub open spec fn live_producer(v: UtxoIndexerV, txs: Seq<TxV>, p: TxOutputPointerV) -> bool {
    exists|i: int|
        0 <= i < txs.len() && produced_passing(v, #[trigger] txs[i], p) && !spent_after(txs, i, p)
}

/// The indexer state after a whole sequence of transactions was applied
/// in order.
pub open spec fn apply_txs(v: UtxoIndexerV, txs: Seq<TxV>) -> UtxoIndexerV
    decreases txs.len(),
{
    if txs.len() == 0 {
        v
    } else {
        let prev = apply_txs(v, txs.drop_last());
        UtxoIndexerV { utxos: after_apply_utxos(prev, txs.last()), ..prev }
    }
}

/// The direct characterization of the projected utxo set after a
/// sequence of transactions: a pointer is held exactly when it was held
/// initially and never spent, or acceptably produced by some
/// transaction and not spent later; its output is the producer's (the
/// initial one if no transaction produced it).
pub open spec fn utxo_model(v: UtxoIndexerV, txs: Seq<TxV>) -> Map<TxOutputPointerV, TxOutputV> {
    Map::new(
        |p: TxOutputPointerV|
            (v.utxos.contains_key(p) && !spent_after(txs, -1, p)) || live_producer(v, txs, p),
        |p: TxOutputPointerV|
            if exists|i: int| 0 <= i < txs.len() && produced_passing(v, #[trigger] txs[i], p) {
                let i = choose|i: int|
                    0 <= i < txs.len() && produced_passing(v, #[trigger] txs[i], p);
                txs[i].unspent()[p.index as int]
            } else {
                v.utxos[p]
            },
    )
}

/// Filter soundness of the reference indexer: after any sequence of
/// applied transactions with pairwise distinct hashes, none colliding
/// with a pointer already held, the projected utxo set is exactly the
/// set of currently unspent outputs acceptably produced along the way
/// (together with what was held initially and never spent). The filters
/// themselves never change.
pub proof fn lemma_filter_soundness(v: UtxoIndexerV, txs: Seq<TxV>)
    requires
        forall|i: int, j: int|
            0 <= i < j < txs.len() ==> (#[trigger] txs[i]).hash != (#[trigger] txs[j]).hash,
        forall|p: TxOutputPointerV, i: int|
            #[trigger] v.utxos.contains_key(p) && 0 <= i < txs.len() ==> p.hash != (
            #[trigger] txs[i]).hash,
    ensures
        apply_txs(v, txs).utxos == utxo_model(v, txs),
        apply_txs(v, txs).addresses == v.addresses,
        apply_txs(v, txs).assets == v.assets,
    decreases txs.len(),
{
    if txs.len() == 0 {
        assert(apply_txs(v, txs).utxos =~= utxo_model(v, txs));
    } else {
        let front = txs.drop_last();
        let t = txs.last();
        let n = txs.len() as int;
        lemma_filter_soundness(v, front);
        let prev = apply_txs(v, front);
        let cur = apply_txs(v, txs);
        lemma_ptr_list_set(t.spent());
        assert(cur.utxos == after_apply_utxos(prev, t));
        assert forall|p: TxOutputPointerV| true implies #[trigger] cur.utxos.contains_key(p)
            == utxo_model(v, txs).contains_key(p) by {
            lemma_filter_soundness_point(v, txs, p);
        }
        assert forall|p: TxOutputPointerV| cur.utxos.contains_key(p) implies #[trigger] cur.utxos[p]
            == utxo_model(v, txs)[p] by {
            lemma_filter_soundness_point(v, txs, p);
        }
        assert(cur.utxos =~= utxo_model(v, txs));
    }
}

/// One pointer of the soundness argument: membership and value agree
/// between the folded state and the direct characterization.
proof fn lemma_filter_soundness_point(v: UtxoIndexerV, txs: Seq<TxV>, p: TxOutputPointerV)
    requires
        txs.len() > 0,
        forall|i: int, j: int|
            0 <= i < j < txs.len() ==> (#[trigger] txs[i]).hash != (#[trigger] txs[j]).hash,
        forall|p2: TxOutputPointerV, i: int|
            #[trigger] v.utxos.contains_key(p2) && 0 <= i < txs.len() ==> p2.hash != (
            #[trigger] txs[i]).hash,
        apply_txs(v, txs.drop_last()).utxos == utxo_model(v, txs.drop_last()),
        apply_txs(v, txs.drop_last()).addresses == v.addresses,
        apply_txs(v, txs.drop_last()).assets == v.assets,
    ensures
        apply_txs(v, txs).utxos.contains_key(p) == utxo_model(v, txs).contains_key(p),
        apply_txs(v, txs).utxos.contains_key(p) ==> apply_txs(v, txs).utxos[p] == utxo_model(
            v,
            txs,
        )[p],
{
    let front = txs.drop_last();
    let t = txs.last();
    let n = txs.len() as int;
    let prev = apply_txs(v, front);
    let cur = apply_txs(v, txs);
    lemma_ptr_list_set(t.spent());
    assert(cur.utxos == after_apply_utxos(prev, t));
    assert(passes_filter(prev, t.unspent()[p.index as int]) == passes_filter(
        v,
        t.unspent()[p.index as int],
    ));

    // Bridge: spending or producing by the appended transaction, in
    // sequence terms.
    assert(forall|j: int| 0 <= j < n - 1 ==> #[trigger] txs[j] == front[j]);
    assert(txs[n - 1] == t);
    assert(tx_spends(t, p) <==> ptr_list_set(t.spent()).contains(p)) by {
        if tx_spends(t, p) {
            let k = choose|k: int| 0 <= k < t.spent().len() && t.spent()[k] == p;
            assert(ptr_list_set(t.spent()).contains(p));
        }
        if ptr_list_set(t.spent()).contains(p) {
            let m = choose|m: int| 0 <= m < t.spent().len() && t.spent()[m] == p;
            assert(tx_spends(t, p));
        }
    }

    // The model over the whole sequence, unfolded one step.
    assert(spent_after(txs, n - 1, p) == false) by {
        if spent_after(txs, n - 1, p) {
            let j = choose|j: int| n - 1 < j < txs.len() && tx_spends(#[trigger] txs[j], p);
        }
    }
    assert forall|i: int| 0 <= i < n - 1 implies #[trigger] spent_after(txs, i, p) == (spent_after(
        front,
        i,
        p,
    ) || tx_spends(t, p)) by {
        if spent_after(txs, i, p) {
            let j = choose|j: int| i < j < txs.len() && tx_spends(#[trigger] txs[j], p);
            if j < n - 1 {
                assert(tx_spends(front[j], p));
                assert(spent_after(front, i, p));
            } else {
                assert(tx_spends(t, p));
            }
        }
        if spent_after(front, i, p) {
            let j = choose|j: int| i < j < front.len() && tx_spends(#[trigger] front[j], p);
            assert(tx_spends(txs[j], p));
            assert(spent_after(txs, i, p));
        }
        if tx_spends(t, p) {
            assert(tx_spends(txs[n - 1], p));
            assert(spent_after(txs, i, p));
        }
    }
    assert(spent_after(txs, -1, p) == (spent_after(front, -1, p) || tx_spends(t, p))) by {
        if spent_after(txs, -1, p) {
            let j = choose|j: int| -1 < j < txs.len() && tx_spends(#[trigger] txs[j], p);
            if j < n - 1 {
                assert(tx_spends(front[j], p));
                assert(spent_after(front, -1, p));
            } else {
                assert(tx_spends(t, p));
            }
        }
        if spent_after(front, -1, p) {
            let j = choose|j: int| -1 < j < front.len() && tx_spends(#[trigger] front[j], p);
            assert(tx_spends(txs[j], p));
            assert(spent_after(txs, -1, p));
        }
        if tx_spends(t, p) {
            assert(tx_spends(txs[n - 1], p));
            assert(spent_after(txs, -1, p));
        }
    }

    if produced_at(t, p) {
        // The appended transaction owns this pointer: nothing earlier
        // could have produced it, nor could the initial state hold it.
        assert(p.hash == t.hash);
        assert(!v.utxos.contains_key(p));
        assert(!live_producer(v, front, p)) by {
            if live_producer(v, front, p) {
                let i = choose|i: int|
                    0 <= i < front.len() && produced_passing(v, #[trigger] front[i], p)
                        && !spent_after(front, i, p);
                assert(txs[i].hash != txs[n - 1].hash);
            }
        }
        assert(!utxo_model(v, front).contains_key(p));
        assert(!prev.utxos.contains_key(p));
        if passes_filter(v, t.unspent()[p.index as int]) {
            assert(cur.utxos.contains_key(p));
            assert(cur.utxos[p] == t.unspent()[p.index as int]);
            assert(produced_passing(v, txs[n - 1], p));
            assert(live_producer(v, txs, p));
            assert(utxo_model(v, txs).contains_key(p));
            assert(utxo_model(v, txs)[p] == t.unspent()[p.index as int]) by {
                assert(exists|i: int|
                    0 <= i < txs.len() && produced_passing(v, #[trigger] txs[i], p));
                let i = choose|i: int|
                    0 <= i < txs.len() && produced_passing(v, #[trigger] txs[i], p);
                assert(i == n - 1) by {
                    if i != n - 1 {
                        assert(txs[i].hash != txs[n - 1].hash);
                    }
                }
            }
        } else {
            assert(!cur.utxos.contains_key(p)) by {
                assert(!prev.utxos.remove_keys(ptr_list_set(t.spent())).contains_key(p));
            }
            assert(!utxo_model(v, txs).contains_key(p)) by {
                if live_producer(v, txs, p) {
                    let i = choose|i: int|
                        0 <= i < txs.len() && produced_passing(v, #[trigger] txs[i], p)
                            && !spent_after(txs, i, p);
                    assert(i == n - 1) by {
                        if i != n - 1 {
                            assert(txs[i].hash != txs[n - 1].hash);
                        }
                    }
                }
                if v.utxos.contains_key(p) {
                }
            }
        }
    } else {
        // The pointer is not of the appended transaction; the overlay
        // leaves it to the removal of what `t` spent.
        assert(!produced_passing(v, t, p));
        assert(cur.utxos.contains_key(p) == (prev.utxos.contains_key(p) && !tx_spends(t, p)));
        assert(cur.utxos.contains_key(p) ==> cur.utxos[p] == prev.utxos[p]);
        assert(!(exists|i: int| 0 <= i < txs.len() && produced_passing(v, #[trigger] txs[i], p))
            == !(exists|i: int|
            0 <= i < front.len() && produced_passing(v, #[trigger] front[i], p))) by {
            if exists|i: int| 0 <= i < txs.len() && produced_passing(v, #[trigger] txs[i], p) {
                let i = choose|i: int|
                    0 <= i < txs.len() && produced_passing(v, #[trigger] txs[i], p);
                assert(i < n - 1);
                assert(produced_passing(v, front[i], p));
            }
            if exists|i: int| 0 <= i < front.len() && produced_passing(v, #[trigger] front[i], p) {
                let i = choose|i: int|
                    0 <= i < front.len() && produced_passing(v, #[trigger] front[i], p);
                assert(produced_passing(v, txs[i], p));
            }
        }
        assert(live_producer(v, txs, p) == (live_producer(v, front, p) && !tx_spends(t, p))) by {
            if live_producer(v, txs, p) {
                let i = choose|i: int|
                    0 <= i < txs.len() && produced_passing(v, #[trigger] txs[i], p) && !spent_after(
                        txs,
                        i,
                        p,
                    );
                assert(i < n - 1);
                assert(produced_passing(v, front[i], p));
                assert(!spent_after(front, i, p));
                assert(!tx_spends(t, p));
                assert(live_producer(v, front, p));
            }
            if live_producer(v, front, p) && !tx_spends(t, p) {
                let i = choose|i: int|
                    0 <= i < front.len() && produced_passing(v, #[trigger] front[i], p)
                        && !spent_after(front, i, p);
                assert(produced_passing(v, txs[i], p));
                assert(!spent_after(txs, i, p));
                assert(live_producer(v, txs, p));
            }
        }
        if cur.utxos.contains_key(p) {
            assert(prev.utxos.contains_key(p) && !tx_spends(t, p));
            assert(utxo_model(v, front).contains_key(p));
            assert(utxo_model(v, txs).contains_key(p));
            if exists|i: int| 0 <= i < front.len() && produced_passing(v, #[trigger] front[i], p) {
                let i0 = choose|i: int|
                    0 <= i < front.len() && produced_passing(v, #[trigger] front[i], p);
                assert(produced_passing(v, txs[i0], p));
                let i1 = choose|i: int|
                    0 <= i < txs.len() && produced_passing(v, #[trigger] txs[i], p);
                assert(i1 < n - 1) by {
                    if i1 == n - 1 {
                        assert(produced_passing(v, t, p));
                    }
                }
                assert(i0 == i1) by {
                    if i0 != i1 {
                        assert(txs[i0].hash == p.hash && txs[i1].hash == p.hash);
                        if i0 < i1 {
                            assert(txs[i0].hash != txs[i1].hash);
                        } else {
                            assert(txs[i1].hash != txs[i0].hash);
                        }
                    }
                }
                assert(utxo_model(v, txs)[p] == txs[i1].unspent()[p.index as int]);
                assert(utxo_model(v, front)[p] == front[i0].unspent()[p.index as int]);
                assert(front[i0] == txs[i0]);
            } else {
                assert(!(exists|i: int|
                    0 <= i < txs.len() && produced_passing(v, #[trigger] txs[i], p)));
                assert(utxo_model(v, txs)[p] == v.utxos[p]);
                assert(utxo_model(v, front)[p] == v.utxos[p]);
            }
            assert(cur.utxos[p] == utxo_model(v, txs)[p]);
        }
    }
}

/// The undo transition inverts the apply transition: when every spent
/// pointer was held, passing the filter, and the store resolves it to
/// exactly the held output, and nothing held or spent sits at the
/// transaction's own hash, then applying a transaction and undoing it
/// restores the utxo set exactly. Together with the forward-only
/// soundness theorem this settles interleaved forward/backward
/// sequences by cancellation, one rollback at a time.
pub proof fn lemma_apply_undo_round_trip(v: UtxoIndexerV, db: DbV, tx: TxV)
    requires
        forall|j: int|
            0 <= j < tx.spent().len() ==> v.utxos.contains_key(#[trigger] tx.spent()[j]),
        forall|j: int|
            0 <= j < tx.spent().len() ==> db.tx_output(#[trigger] tx.spent()[j]) == Some(
                v.utxos[tx.spent()[j]],
            ),
        forall|j: int|
            0 <= j < tx.spent().len() ==> passes_filter(v, v.utxos[#[trigger] tx.spent()[j]]),
        forall|p: TxOutputPointerV| #[trigger] v.utxos.contains_key(p) ==> p.hash != tx.hash,
        forall|j: int| 0 <= j < tx.spent().len() ==> (#[trigger] tx.spent()[j]).hash != tx.hash,
    ensures
        after_undo_utxos(
            UtxoIndexerV { utxos: after_apply_utxos(v, tx), ..v },
            db,
            tx,
        ) == v.utxos,
{
    let v2 = UtxoIndexerV { utxos: after_apply_utxos(v, tx), ..v };
    let result = after_undo_utxos(v2, db, tx);
    lemma_ptr_list_set(tx.spent());
    assert forall|p: TxOutputPointerV| true implies #[trigger] result.contains_key(p)
        == v.utxos.contains_key(p) by {
        if produced_at(tx, p) {
            assert(p.hash == tx.hash);
            assert(!v.utxos.contains_key(p));
        } else if ptr_list_set(tx.spent()).contains(p) {
            let j = choose|j: int| 0 <= j < tx.spent().len() && tx.spent()[j] == p;
            assert(v.utxos.contains_key(p));
            assert(db.tx_output(p) == Some(v.utxos[p]));
            assert(passes_filter(v2, v.utxos[p]) == passes_filter(v, v.utxos[p]));
            assert(result.contains_key(p));
        } else {
            if v.utxos.contains_key(p) {
                assert(v2.utxos.contains_key(p)) by {
                    assert(!ptr_list_set(tx.spent()).contains(p));
                    assert(v.utxos.remove_keys(ptr_list_set(tx.spent())).contains_key(p));
                }
                assert(result.contains_key(p));
            }
            if result.contains_key(p) {
                assert(v2.utxos.contains_key(p));
                assert(v.utxos.remove_keys(ptr_list_set(tx.spent())).contains_key(p));
            }
        }
    }
    assert forall|p: TxOutputPointerV| result.contains_key(p) implies #[trigger] result[p]
        == v.utxos[p] by {
        assert(!produced_at(tx, p));
        if ptr_list_set(tx.spent()).contains(p) {
            let j = choose|j: int| 0 <= j < tx.spent().len() && tx.spent()[j] == p;
            assert(db.tx_output(p) == Some(v.utxos[p]));
            assert(passes_filter(v2, v.utxos[p]) == passes_filter(v, v.utxos[p]));
            assert(result[p] == v.utxos[p]);
        } else {
            assert(v2.utxos.contains_key(p));
            assert(v2.utxos[p] == v.utxos.remove_keys(ptr_list_set(tx.spent()))[p]);
            assert(result[p] == v2.utxos[p]);
        }
    }
    assert(result =~= v.utxos);
}

} // verus!
