use vstd::prelude::*;

use crate::db::Db;
use crate::db::DbError;
use crate::db::DbV;
use crate::indexer::Indexer;
use crate::oracle::OracleDatum;
use crate::oracle::spec_datum;
use crate::script::Script;
use crate::script::ScriptHash;
use crate::script::ScriptV;
use crate::table::Table;
use crate::tx::Datum;
use crate::tx::DatumHash;
use crate::tx::Tx;
use crate::tx::TxHash;
use crate::tx::TxOutput;
use crate::tx::TxOutputPointer;
use crate::tx::TxOutputPointerV;
use crate::tx::TxOutputV;
use crate::tx::TxV;
use crate::utxo::produced_at;
use crate::utxo::ptr_list_set;
use crate::utxo::lemma_ptr_list_set;

verus! {

/// Mathematical state of an [`OracleIndexer`]: the priced policy, every
/// priced output ever seen (`txos`), the currently unspent ones
/// (`utxos`), and the decodable datums by hash.
#[verifier::ext_equal]
pub struct OracleIndexerV {
    pub policy: Seq<u8>,
    pub txos: Map<TxOutputPointerV, TxOutputV>,
    pub utxos: Map<TxOutputPointerV, TxOutputV>,
    pub datums: Map<Seq<u8>, Seq<u8>>,
}

/// The output carries at least one asset of the priced policy.
pub open spec fn carries_policy(policy: Seq<u8>, o: TxOutputV) -> bool {
    exists|k: int| 0 <= k < o.assets.len() && (#[trigger] o.assets[k]).policy == policy
}

/// The transaction produces a priced output at this pointer.
pub open spec fn priced_at(policy: Seq<u8>, tx: TxV, p: TxOutputPointerV) -> bool {
    produced_at(tx, p) && carries_policy(policy, tx.unspent()[p.index as int])
}

/// The state after applying one transaction: what it spends leaves the
/// unspent set, and every priced output it produces enters both tables.
pub open spec fn oracle_after_apply(v: OracleIndexerV, tx: TxV) -> OracleIndexerV {
    let consumed = v.utxos.remove_keys(ptr_list_set(tx.spent()));
    OracleIndexerV {
        policy: v.policy,
        txos: Map::new(
            |p: TxOutputPointerV| v.txos.contains_key(p) || priced_at(v.policy, tx, p),
            |p: TxOutputPointerV|
                if priced_at(v.policy, tx, p) {
                    tx.unspent()[p.index as int]
                } else {
                    v.txos[p]
                },
        ),
        utxos: Map::new(
            |p: TxOutputPointerV| consumed.contains_key(p) || priced_at(v.policy, tx, p),
            |p: TxOutputPointerV|
                if priced_at(v.policy, tx, p) {
                    tx.unspent()[p.index as int]
                } else {
                    consumed[p]
                },
        ),
        datums: v.datums,
    }
}

/// The keep vote for a transaction: it consumed a held priced utxo, or
/// it produced a priced output.
pub open spec fn oracle_keeps(v: OracleIndexerV, tx: TxV) -> bool {
    ||| exists|j: int|
        0 <= j < tx.spent().len() && v.utxos.contains_key(#[trigger] tx.spent()[j]) && (forall|
            j2: int,
        |
            0 <= j2 < j ==> tx.spent()[j2] != tx.spent()[j])
    ||| exists|i: int|
        0 <= i < tx.unspent().len() && carries_policy(v.policy, #[trigger] tx.unspent()[i])
}

/// The pointers of one transaction's records.
pub open spec fn hash_pointers(h: Seq<u8>) -> Set<TxOutputPointerV> {
    Set::new(|p: TxOutputPointerV| p.hash == h)
}

/// The state after undoing one transaction: every record of its hash
/// leaves both tables, and what it had spent is re-marked unspent from
/// the historical table.
pub open spec fn oracle_after_undo(v: OracleIndexerV, tx: TxV) -> OracleIndexerV {
    let txos2 = v.txos.remove_keys(hash_pointers(tx.hash));
    let utxos2 = v.utxos.remove_keys(hash_pointers(tx.hash));
    OracleIndexerV {
        policy: v.policy,
        txos: txos2,
        utxos: Map::new(
            |p: TxOutputPointerV|
                utxos2.contains_key(p) || (ptr_list_set(tx.spent()).contains(p)
                    && txos2.contains_key(p)),
            |p: TxOutputPointerV|
                if ptr_list_set(tx.spent()).contains(p) && txos2.contains_key(p) {
                    txos2[p]
                } else {
                    utxos2[p]
                },
        ),
        datums: v.datums,
    }
}

/// The keep vote for a datum: it decodes as an oracle datum and its
/// hash is not yet stored.
pub open spec fn oracle_keeps_datum(v: OracleIndexerV, h: Seq<u8>, d: Seq<u8>) -> bool {
    spec_datum(d) is Some && !v.datums.contains_key(h)
}

/// The state after consuming one datum: stored exactly when the vote
/// kept it.
pub open spec fn oracle_after_datum(v: OracleIndexerV, h: Seq<u8>, d: Seq<u8>) -> OracleIndexerV {
    if oracle_keeps_datum(v, h, d) {
        OracleIndexerV { datums: v.datums.insert(h, d), ..v }
    } else {
        v
    }
}

/// The second reference indexer: projects every output carrying an
/// asset of one fixed policy — the oracle's price feeds — together
/// with the oracle datums those outputs point at.
pub struct OracleIndexer {
    pub policy: crate::asset::Policy,
    pub txos: Table<TxOutputPointer, TxOutput>,
    pub utxos: Table<TxOutputPointer, TxOutput>,
    pub datums: Table<DatumHash, Datum>,
}

impl View for OracleIndexer {
    type V = OracleIndexerV;

    open spec fn view(&self) -> OracleIndexerV {
        OracleIndexerV {
            policy: self.policy@,
            txos: self.txos@,
            utxos: self.utxos@,
            datums: self.datums@,
        }
    }
}

impl OracleIndexer {
    /// The internal well-formedness: unique keys in every table, and
    /// only decodable datums stored.
    pub open spec fn wf(&self) -> bool {
        &&& self.txos.wf()
        &&& self.utxos.wf()
        &&& self.datums.wf()
        &&& forall|h: Seq<u8>| #[trigger]
            self@.datums.contains_key(h) ==> spec_datum(self@.datums[h]) is Some
    }

    /// An empty projection for the oracle's minting policy.
    pub fn new() -> (r: OracleIndexer)
        ensures
            r.wf(),
            r@.txos == Map::<TxOutputPointerV, TxOutputV>::empty(),
            r@.utxos == Map::<TxOutputPointerV, TxOutputV>::empty(),
            r@.datums == Map::<Seq<u8>, Seq<u8>>::empty(),
    {
        let policy_bytes: Vec<u8> = vec![
            0x0f, 0xde, 0x77, 0xa0, 0xea, 0x08, 0x33, 0x50, 0x2b, 0x38, 0x6d, 0x34, 0xe3, 0x3d,
            0x78, 0xf8, 0x6c, 0x75, 0x4b, 0xad, 0x30, 0x9e, 0xe8, 0xbf, 0x00, 0x8d, 0x7a, 0x9d,
        ];
        let policy = match crate::hash::Hash::<28>::from_bytes(policy_bytes) {
            Some(h) => h,
            None => unreached(),
        };
        OracleIndexer {
            policy,
            txos: Table::new(),
            utxos: Table::new(),
            datums: Table::new(),
        }
    }

    /// The currently unspent priced outputs.
    pub fn utxos(&self) -> (r: &Vec<(TxOutputPointer, TxOutput)>)
        ensures
            r@.len() == self.utxos.pairs().len(),
            forall|i: int| 0 <= i < r@.len() ==> #[trigger] r@[i] == self.utxos.pairs()[i],
    {
        self.utxos.entries()
    }

    /// A stored oracle datum, decoded. Everything stored decodes, so
    /// this answers exactly for the stored hashes.
    pub fn datum(&self, hash: &DatumHash) -> (r: Option<OracleDatum>)
        requires
            self.wf(),
        ensures
            r is Some <==> self@.datums.contains_key(hash@),
    {
        match self.datums.get(hash) {
            Some(raw) => {
                let decoded = OracleDatum::decode(raw);
                match decoded {
                    Some(d) => Some(d),
                    None => unreached(),
                }
            },
            None => None,
        }
    }

    /// Whether this output carries the priced policy.
    fn carries(&self, output: &TxOutput) -> (r: bool)
        ensures
            r == carries_policy(self@.policy, output@),
    {
        let n: usize = output.assets.len();
        let mut k: usize = 0;
        while k < n
            invariant
                0 <= k <= n,
                n == output.assets@.len(),
                forall|c: int| 0 <= c < k ==> (#[trigger] output.assets@[c])@.policy != self.policy@,
            decreases n - k,
        {
            if output.assets[k].policy.same(&self.policy) {
                proof {
                    assert(output@.assets[k as int].policy == self@.policy);
                }
                return true;
            }
            k = k + 1;
        }
        proof {
            assert(!carries_policy(self@.policy, output@)) by {
                if carries_policy(self@.policy, output@) {
                    let c = choose|c: int|
                        0 <= c < output@.assets.len() && (#[trigger] output@.assets[c]).policy
                            == self@.policy;
                    assert(output.assets@[c]@.policy == self.policy@);
                }
            }
        }
        false
    }
}

/// The historical table when the first `prod` produced outputs (the
/// priced ones) came in.
pub open spec fn partial_txos(v: OracleIndexerV, tx: TxV, prod: int) -> Map<
    TxOutputPointerV,
    TxOutputV,
> {
    Map::new(
        |p: TxOutputPointerV|
            v.txos.contains_key(p) || (p.hash == tx.hash && p.index < prod && p.index
                < tx.unspent().len() && carries_policy(v.policy, tx.unspent()[p.index as int])),
        |p: TxOutputPointerV|
            if p.hash == tx.hash && p.index < prod && p.index < tx.unspent().len()
                && carries_policy(v.policy, tx.unspent()[p.index as int]) {
                tx.unspent()[p.index as int]
            } else {
                v.txos[p]
            },
    )
}

/// The unspent table when everything spent left and the first `prod`
/// priced produced outputs came in.
pub open spec fn partial_utxos(v: OracleIndexerV, tx: TxV, prod: int) -> Map<
    TxOutputPointerV,
    TxOutputV,
> {
    let consumed = v.utxos.remove_keys(ptr_list_set(tx.spent()));
    Map::new(
        |p: TxOutputPointerV|
            consumed.contains_key(p) || (p.hash == tx.hash && p.index < prod && p.index
                < tx.unspent().len() && carries_policy(v.policy, tx.unspent()[p.index as int])),
        |p: TxOutputPointerV|
            if p.hash == tx.hash && p.index < prod && p.index < tx.unspent().len()
                && carries_policy(v.policy, tx.unspent()[p.index as int]) {
                tx.unspent()[p.index as int]
            } else {
                consumed[p]
            },
    )
}

/// A held utxo among the first `upto` spent pointers, not repeated
/// earlier: the consume side of the keep vote.
pub open spec fn oracle_consume_keeps(v: OracleIndexerV, tx: TxV, upto: int) -> bool {
    exists|j: int|
        0 <= j < upto && v.utxos.contains_key(#[trigger] tx.spent()[j]) && (forall|j2: int|
            0 <= j2 < j ==> tx.spent()[j2] != tx.spent()[j])
}

/// A priced output among the first `prod` produced: the insert side of
/// the keep vote.
pub open spec fn oracle_insert_keeps(v: OracleIndexerV, tx: TxV, prod: int) -> bool {
    exists|i: int|
        0 <= i < prod && i < tx.unspent().len() && carries_policy(
            v.policy,
            #[trigger] tx.unspent()[i],
        )
}

impl OracleIndexer {
    /// Apply one transaction: what it spends leaves the unspent set,
    /// and every priced output it produces enters both tables. The
    /// result is the keep vote.
    #[verifier::loop_isolation(false)]
    pub fn apply_tx(&mut self, tx: &Tx) -> (kept: bool)
        requires
            old(self).wf(),
        ensures
            final(self).wf(),
            final(self)@ == oracle_after_apply(old(self)@, tx@),
            kept == oracle_keeps(old(self)@, tx@),
    {
        let ghost pre = *self;
        let mut kept = false;

        // Mark what the transaction spends as spent.
        let spent = tx.spent();
        let ns: usize = spent.len();
        proof {
            assert(crate::tx::seq_views(spent@) == tx@.spent());
            assert(tx@.spent().take(0) =~= Seq::<TxOutputPointerV>::empty());
            crate::db::lemma_remove_keys_empty(pre@.utxos);
            assert(self.utxos@ == pre@.utxos.remove_keys(ptr_list_set(tx@.spent().take(0))));
        }
        let mut j: usize = 0;
        while j < ns
            invariant
                0 <= j <= ns,
                self.policy == pre.policy,
                self.txos == pre.txos,
                self.datums == pre.datums,
                self.utxos.wf(),
                self.utxos@ == pre@.utxos.remove_keys(ptr_list_set(tx@.spent().take(j as int))),
                kept == oracle_consume_keeps(pre@, tx@, j as int),
            decreases ns - j,
        {
            let ghost cur = self.utxos@;
            let ghost pset = ptr_list_set(tx@.spent().take(j as int));
            let was_present = self.utxos.remove(&spent[j]);
            proof {
                let sv = tx@.spent();
                assert(spent@[j as int]@ == sv[j as int]);
                assert(sv.take(j + 1).drop_last() =~= sv.take(j as int));
                assert(sv.take(j + 1).last() == sv[j as int]);
                assert(ptr_list_set(sv.take(j + 1)) == pset.insert(sv[j as int]));
                crate::db::lemma_remove_keys_insert(pre@.utxos, pset, sv[j as int]);
                lemma_ptr_list_set(sv.take(j as int));
                if was_present {
                    assert(pre@.utxos.contains_key(sv[j as int]));
                    assert(!pset.contains(sv[j as int]));
                    assert forall|j2: int| 0 <= j2 < j implies sv[j2] != sv[j as int] by {
                        assert(sv.take(j as int)[j2] == sv[j2]);
                    }
                    assert(oracle_consume_keeps(pre@, tx@, j + 1));
                } else {
                    if oracle_consume_keeps(pre@, tx@, j + 1) && !oracle_consume_keeps(
                        pre@,
                        tx@,
                        j as int,
                    ) {
                        let jw = choose|jw: int|
                            0 <= jw < j + 1 && pre@.utxos.contains_key(#[trigger] sv[jw]) && (
                            forall|j2: int| 0 <= j2 < jw ==> sv[j2] != sv[jw]);
                        assert(jw == j);
                        assert(!pset.contains(sv[j as int])) by {
                            if pset.contains(sv[j as int]) {
                                let mw = choose|mw: int|
                                    0 <= mw < sv.take(j as int).len() && sv.take(j as int)[mw]
                                        == sv[j as int];
                                assert(sv[mw] == sv[j as int]);
                            }
                        }
                        assert(cur.contains_key(sv[j as int]));
                    }
                }
            }
            kept = kept || was_present;
            j = j + 1;
        }
        proof {
            assert(tx@.spent().take(ns as int) =~= tx@.spent());
        }

        // Add the priced outputs the transaction produces.
        let unspent = tx.unspent();
        let no: usize = unspent.len();
        proof {
            assert(crate::tx::seq_views(unspent@) == tx@.unspent());
            assert(self.utxos@ =~= partial_utxos(pre@, tx@, 0));
            assert(self.txos@ =~= partial_txos(pre@, tx@, 0));
        }
        let mut i: usize = 0;
        let mut kept_out = false;
        while i < no
            invariant
                0 <= i <= no,
                self.policy == pre.policy,
                self.datums == pre.datums,
                self.utxos.wf(),
                self.txos.wf(),
                self.utxos@ == partial_utxos(pre@, tx@, i as int),
                self.txos@ == partial_txos(pre@, tx@, i as int),
                kept_out == oracle_insert_keeps(pre@, tx@, i as int),
            decreases no - i,
        {
            let output = &unspent[i];
            proof {
                assert(output@ == tx@.unspent()[i as int]);
                assert(self@.policy == pre@.policy);
            }
            let priced = self.carries(output);
            if priced {
                let pointer = TxOutputPointer::new(tx.hash.clone(), i);
                self.txos.insert(pointer, output.clone());
                let pointer2 = TxOutputPointer::new(tx.hash.clone(), i);
                self.utxos.insert(pointer2, output.clone());
                proof {
                    let pv = TxOutputPointerV { hash: tx@.hash, index: i as u64 };
                    assert(carries_policy(pre@.policy, tx@.unspent()[i as int]));
                    assert(partial_txos(pre@, tx@, i as int).insert(pv, output@) =~= partial_txos(
                        pre@,
                        tx@,
                        i + 1,
                    ));
                    assert(partial_utxos(pre@, tx@, i as int).insert(pv, output@)
                        =~= partial_utxos(pre@, tx@, i + 1));
                    assert(oracle_insert_keeps(pre@, tx@, i + 1));
                }
                kept_out = true;
            } else {
                proof {
                    assert(partial_txos(pre@, tx@, i as int) =~= partial_txos(pre@, tx@, i + 1));
                    assert(partial_utxos(pre@, tx@, i as int) =~= partial_utxos(pre@, tx@, i + 1));
                    if oracle_insert_keeps(pre@, tx@, i + 1) && !oracle_insert_keeps(
                        pre@,
                        tx@,
                        i as int,
                    ) {
                        let iw = choose|iw: int|
                            0 <= iw < i + 1 && iw < tx@.unspent().len() && carries_policy(
                                pre@.policy,
                                #[trigger] tx@.unspent()[iw],
                            );
                        assert(iw == i);
                    }
                }
            }
            i = i + 1;
        }
        proof {
            assert(self.utxos@ =~= oracle_after_apply(pre@, tx@).utxos);
            assert(self.txos@ =~= oracle_after_apply(pre@, tx@).txos);
            assert(self@ =~= oracle_after_apply(pre@, tx@));
            assert(kept || kept_out == oracle_keeps(pre@, tx@)) by {
                if oracle_keeps(pre@, tx@) {
                    assert(oracle_consume_keeps(pre@, tx@, ns as int) || oracle_insert_keeps(
                        pre@,
                        tx@,
                        no as int,
                    ));
                }
                if oracle_consume_keeps(pre@, tx@, ns as int) || oracle_insert_keeps(
                    pre@,
                    tx@,
                    no as int,
                ) {
                    assert(oracle_keeps(pre@, tx@));
                }
            }
        }
        kept || kept_out
    }
}

/// Remove every record of one transaction hash from a pointer-keyed
/// table.
#[verifier::loop_isolation(false)]
fn remove_pointers_of(table: &mut Table<TxOutputPointer, TxOutput>, hash: &TxHash)
    requires
        old(table).wf(),
    ensures
        final(table).wf(),
        final(table)@ == old(table)@.remove_keys(hash_pointers(hash@)),
{
    let ghost pre = *table;
    let mut keys: Vec<TxOutputPointer> = Vec::new();
    let n: usize = table.len();
    let mut i: usize = 0;
    while i < n
        invariant
            *table == pre,
            0 <= i <= n,
            n == table.pairs().len(),
            forall|c: int| 0 <= c < keys@.len() ==> (#[trigger] keys@[c])@.hash == hash@,
            forall|j: int|
                0 <= j < i && (#[trigger] table.pairs()[j]).0@.hash == hash@ ==> exists|c: int|
                    0 <= c < keys@.len() && (#[trigger] keys@[c])@ == table.pairs()[j].0@,
        decreases n - i,
    {
        let pair = &table.entries()[i];
        if pair.0.hash.same(hash) {
            let ghost pre_keys = keys@;
            keys.push(pair.0.clone());
            proof {
                assert(keys@[keys@.len() - 1]@ == table.pairs()[i as int].0@);
                assert forall|j: int|
                    0 <= j < i + 1 && (#[trigger] table.pairs()[j]).0@.hash == hash@ implies exists|
                    c: int,
                |
                    0 <= c < keys@.len() && (#[trigger] keys@[c])@ == table.pairs()[j].0@ by {
                    if j < i {
                        let c = choose|c: int|
                            0 <= c < pre_keys.len() && (#[trigger] pre_keys[c])@
                                == table.pairs()[j].0@;
                        assert(keys@[c]@ == table.pairs()[j].0@);
                    } else {
                        assert(keys@[keys@.len() - 1]@ == table.pairs()[j].0@);
                    }
                }
            }
        } else {
            proof {
                assert forall|j: int|
                    0 <= j < i + 1 && (#[trigger] table.pairs()[j]).0@.hash == hash@ implies exists|
                    c: int,
                |
                    0 <= c < keys@.len() && (#[trigger] keys@[c])@ == table.pairs()[j].0@ by {
                    if j == i {
                        assert(table.pairs()[j].0@.hash != hash@);
                    }
                }
            }
        }
        i = i + 1;
    }
    let ghost kv = crate::tx::seq_views(keys@);
    let nk: usize = keys.len();
    let mut j: usize = 0;
    proof {
        assert(kv.take(0) =~= Seq::<TxOutputPointerV>::empty());
        crate::db::lemma_remove_keys_empty(pre@);
        assert(table@ == pre@.remove_keys(ptr_list_set(kv.take(0))));
    }
    while j < nk
        invariant
            0 <= j <= nk,
            nk == keys@.len(),
            table.wf(),
            table@ == pre@.remove_keys(ptr_list_set(kv.take(j as int))),
        decreases nk - j,
    {
        let ghost pset = ptr_list_set(kv.take(j as int));
        table.remove(&keys[j]);
        proof {
            assert(keys@[j as int]@ == kv[j as int]);
            assert(kv.take(j + 1).drop_last() =~= kv.take(j as int));
            assert(kv.take(j + 1).last() == kv[j as int]);
            assert(ptr_list_set(kv.take(j + 1)) == pset.insert(kv[j as int]));
            crate::db::lemma_remove_keys_insert(pre@, pset, kv[j as int]);
        }
        j = j + 1;
    }
    proof {
        assert(kv.take(nk as int) =~= kv);
        lemma_ptr_list_set(kv);
        pre.lemma_pairs_map();
        assert forall|p: TxOutputPointerV| true implies #[trigger] table@.contains_key(p)
            == pre@.remove_keys(hash_pointers(hash@)).contains_key(p) by {
            if pre@.contains_key(p) {
                if p.hash == hash@ {
                    let jj = choose|jj: int|
                        0 <= jj < pre.pairs().len() && (#[trigger] pre.pairs()[jj]).0@ == p;
                    assert(pre.pairs()[jj].0@.hash == hash@);
                    let c = choose|c: int|
                        0 <= c < keys@.len() && (#[trigger] keys@[c])@ == pre.pairs()[jj].0@;
                    assert(kv[c] == p);
                    assert(ptr_list_set(kv).contains(p));
                } else {
                    if ptr_list_set(kv).contains(p) {
                        let c = choose|c: int| 0 <= c < kv.len() && kv[c] == p;
                        assert(keys@[c]@ == p);
                    }
                }
            }
        }
        assert(table@ =~= pre@.remove_keys(hash_pointers(hash@)));
    }
}

/// The unspent table when the first `upto` spent pointers were
/// re-marked from the historical table.
pub open spec fn partial_remark(
    utxos2: Map<TxOutputPointerV, TxOutputV>,
    txos2: Map<TxOutputPointerV, TxOutputV>,
    spent: Seq<TxOutputPointerV>,
    upto: int,
) -> Map<TxOutputPointerV, TxOutputV> {
    Map::new(
        |p: TxOutputPointerV|
            utxos2.contains_key(p) || (ptr_list_set(spent.take(upto)).contains(p)
                && txos2.contains_key(p)),
        |p: TxOutputPointerV|
            if ptr_list_set(spent.take(upto)).contains(p) && txos2.contains_key(p) {
                txos2[p]
            } else {
                utxos2[p]
            },
    )
}

impl OracleIndexer {
    /// Undo one transaction: drop every record of its hash from both
    /// tables, then re-mark what it had spent from the historical
    /// table. Never fails: history the table no longer holds simply
    /// stays absent.
    #[verifier::loop_isolation(false)]
    pub fn undo_tx(&mut self, tx: &Tx)
        requires
            old(self).wf(),
        ensures
            final(self).wf(),
            final(self)@ == oracle_after_undo(old(self)@, tx@),
    {
        let ghost pre = *self;
        remove_pointers_of(&mut self.txos, &tx.hash);
        remove_pointers_of(&mut self.utxos, &tx.hash);
        let ghost txos2 = self.txos@;
        let ghost utxos2 = self.utxos@;

        let spent = tx.spent();
        let ns: usize = spent.len();
        proof {
            assert(crate::tx::seq_views(spent@) == tx@.spent());
            assert(tx@.spent().take(0) =~= Seq::<TxOutputPointerV>::empty());
            assert(self.utxos@ =~= partial_remark(utxos2, txos2, tx@.spent(), 0));
        }
        let mut j: usize = 0;
        while j < ns
            invariant
                0 <= j <= ns,
                self.policy == pre.policy,
                self.datums == pre.datums,
                self.txos@ == txos2,
                self.txos.wf(),
                self.utxos.wf(),
                self.utxos@ == partial_remark(utxos2, txos2, tx@.spent(), j as int),
            decreases ns - j,
        {
            proof {
                assert(spent@[j as int]@ == tx@.spent()[j as int]);
                let sv = tx@.spent();
                assert(sv.take(j + 1).drop_last() =~= sv.take(j as int));
                assert(sv.take(j + 1).last() == sv[j as int]);
                assert(ptr_list_set(sv.take(j + 1)) == ptr_list_set(sv.take(j as int)).insert(
                    sv[j as int],
                ));
            }
            match self.txos.get(&spent[j]) {
                Some(o) => {
                    let o2 = o.clone();
                    self.utxos.insert(spent[j].clone(), o2);
                    proof {
                        assert(partial_remark(utxos2, txos2, tx@.spent(), j as int).insert(
                            tx@.spent()[j as int],
                            txos2[tx@.spent()[j as int]],
                        ) =~= partial_remark(utxos2, txos2, tx@.spent(), j + 1));
                    }
                },
                None => {
                    proof {
                        assert(partial_remark(utxos2, txos2, tx@.spent(), j as int)
                            =~= partial_remark(utxos2, txos2, tx@.spent(), j + 1));
                    }
                },
            }
            j = j + 1;
        }
        proof {
            assert(tx@.spent().take(ns as int) =~= tx@.spent());
            assert(self.utxos@ =~= oracle_after_undo(pre@, tx@).utxos);
            assert(self@ =~= oracle_after_undo(pre@, tx@));
        }
    }

    /// Wipe every table; the priced policy stays.
    pub fn wipe(&mut self)
        ensures
            final(self).wf(),
            final(self)@.policy == old(self)@.policy,
            final(self)@.txos == Map::<TxOutputPointerV, TxOutputV>::empty(),
            final(self)@.utxos == Map::<TxOutputPointerV, TxOutputV>::empty(),
            final(self)@.datums == Map::<Seq<u8>, Seq<u8>>::empty(),
    {
        self.txos.clear();
        self.utxos.clear();
        self.datums.clear();
    }
}

impl Indexer for OracleIndexer {
    open spec fn inv(&self) -> bool {
        self.wf()
    }

    open spec fn id_spec(&self) -> Seq<char> {
        "oracle"@
    }

    open spec fn keeps_tx(v: OracleIndexerV, tx: TxV) -> bool {
        oracle_keeps(v, tx)
    }

    open spec fn after_insert_tx(v: OracleIndexerV, tx: TxV) -> OracleIndexerV {
        oracle_after_apply(v, tx)
    }

    open spec fn can_delete_tx(v: OracleIndexerV, db: DbV, tx: TxV) -> bool {
        true
    }

    open spec fn after_delete_tx(v: OracleIndexerV, db: DbV, tx: TxV) -> OracleIndexerV {
        oracle_after_undo(v, tx)
    }

    open spec fn keeps_datum(v: OracleIndexerV, hash: Seq<u8>, datum: Seq<u8>) -> bool {
        oracle_keeps_datum(v, hash, datum)
    }

    open spec fn after_insert_datum(v: OracleIndexerV, hash: Seq<u8>, datum: Seq<u8>) -> OracleIndexerV {
        oracle_after_datum(v, hash, datum)
    }

    open spec fn after_delete_datum(v: OracleIndexerV, hash: Seq<u8>) -> OracleIndexerV {
        OracleIndexerV { datums: v.datums.remove(hash), ..v }
    }

    open spec fn keeps_script(v: OracleIndexerV, hash: Seq<u8>, script: ScriptV) -> bool {
        false
    }

    open spec fn after_insert_script(v: OracleIndexerV, hash: Seq<u8>, script: ScriptV) -> OracleIndexerV {
        v
    }

    open spec fn after_delete_script(v: OracleIndexerV, hash: Seq<u8>) -> OracleIndexerV {
        v
    }

    open spec fn after_clear(v: OracleIndexerV) -> OracleIndexerV {
        OracleIndexerV {
            policy: v.policy,
            txos: Map::empty(),
            utxos: Map::empty(),
            datums: Map::empty(),
        }
    }

    fn id(&self) -> (r: String) {
        String::from_str("oracle")
    }

    fn insert_tx(&mut self, tx: &Tx) -> (r: bool) {
        self.apply_tx(tx)
    }

    fn delete_tx(&mut self, db: &Db, tx: &Tx) -> (r: Result<(), DbError>) {
        self.undo_tx(tx);
        Ok(())
    }

    fn insert_datum(&mut self, hash: &DatumHash, datum: &Datum) -> (r: bool) {
        if OracleDatum::decode(datum).is_none() {
            proof {
                assert(spec_datum(datum@) is None);
                assert(self@ =~= oracle_after_datum(old(self)@, hash@, datum@));
            }
            return false;
        }
        if self.datums.get(hash).is_some() {
            proof {
                assert(self@ =~= oracle_after_datum(old(self)@, hash@, datum@));
            }
            return false;
        }
        self.datums.insert(hash.clone(), crate::hash::bytes_dup(datum));
        proof {
            assert(oracle_keeps_datum(old(self)@, hash@, datum@));
            assert(self@ =~= oracle_after_datum(old(self)@, hash@, datum@));
        }
        true
    }

    fn delete_datum(&mut self, hash: &DatumHash) {
        self.datums.remove(hash);
        proof {
            assert(self@ =~= (OracleIndexerV { datums: old(self)@.datums.remove(hash@), ..old(self)@ }));
        }
    }

    fn insert_script(&mut self, hash: &ScriptHash, script: &Script) -> (r: bool) {
        false
    }

    fn delete_script(&mut self, hash: &ScriptHash) {
    }

    fn clear(&mut self) {
        self.wipe();
        proof {
            assert(self@ =~= (OracleIndexerV {
                policy: old(self)@.policy,
                txos: Map::empty(),
                utxos: Map::empty(),
                datums: Map::empty(),
            }));
        }
    }
}

} // verus!
