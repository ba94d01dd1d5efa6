use vstd::prelude::*;

use crate::db::Db;
use crate::db::DbError;
use crate::db::DbV;
use crate::script::Script;
use crate::script::ScriptHash;
use crate::script::ScriptV;
use crate::tx::Datum;
use crate::tx::DatumHash;
use crate::tx::Tx;
use crate::tx::TxV;

verus! {

/// A pluggable consumer of chain data. The engine drives every hook of
/// every indexer inside the same logical transaction as its own spine
/// updates.
///
/// Each mutating hook pins its outcome to a spec-level transition on the
/// indexer's view, so that a concrete indexer's behaviour under any
/// sequence of engine operations is fully determined by its spec
/// functions. The boolean results tell the engine whether to keep the raw
/// record in the volatile store; the engine folds them with logical OR
/// over the indexer list.
pub trait Indexer: Sized + View {
    /// The indexer's internal well-formedness.
    spec fn inv(&self) -> bool;

    /// The stable identity recorded in `indexer_ids` at first run.
    spec fn id_spec(&self) -> Seq<char>;

    /// Whether the indexer asks the engine to keep this transaction.
    spec fn keeps_tx(v: Self::V, tx: TxV) -> bool;

    /// The state after consuming a transaction rolled forward.
    spec fn after_insert_tx(v: Self::V, tx: TxV) -> Self::V;

    /// Whether undoing this transaction can succeed against this store.
    spec fn can_delete_tx(v: Self::V, db: DbV, tx: TxV) -> bool;

    /// The state after undoing a transaction rolled backward.
    spec fn after_delete_tx(v: Self::V, db: DbV, tx: TxV) -> Self::V;

    /// Whether the indexer asks the engine to keep this datum.
    spec fn keeps_datum(v: Self::V, hash: Seq<u8>, datum: Seq<u8>) -> bool;

    /// The state after consuming a datum rolled forward.
    spec fn after_insert_datum(v: Self::V, hash: Seq<u8>, datum: Seq<u8>) -> Self::V;

    /// The state after undoing a datum rolled backward.
    spec fn after_delete_datum(v: Self::V, hash: Seq<u8>) -> Self::V;

    /// Whether the indexer asks the engine to keep this script.
    spec fn keeps_script(v: Self::V, hash: Seq<u8>, script: ScriptV) -> bool;

    /// The state after consuming a script rolled forward.
    spec fn after_insert_script(v: Self::V, hash: Seq<u8>, script: ScriptV) -> Self::V;

    /// The state after undoing a script rolled backward.
    spec fn after_delete_script(v: Self::V, hash: Seq<u8>) -> Self::V;

    /// The state after the indexer wiped its own tables.
    spec fn after_clear(v: Self::V) -> Self::V;

    /// The stable identifier recorded at first run.
    fn id(&self) -> (r: String)
        ensures
            r@ == self.id_spec(),
    ;

    /// Consume one transaction; `true` asks the engine to keep it.
    fn insert_tx(&mut self, tx: &Tx) -> (r: bool)
        requires
            old(self).inv(),
        ensures
            final(self).inv(),
            final(self).id_spec() == old(self).id_spec(),
            final(self)@ == Self::after_insert_tx(old(self)@, tx@),
            r == Self::keeps_tx(old(self)@, tx@),
    ;

    /// Undo one transaction, restoring what it displaced from the store.
    fn delete_tx(&mut self, db: &Db, tx: &Tx) -> (r: Result<(), DbError>)
        requires
            old(self).inv(),
            db.tables_wf(),
        ensures
            final(self).inv(),
            final(self).id_spec() == old(self).id_spec(),
            match r {
                Ok(()) => Self::can_delete_tx(old(self)@, db@, tx@) && final(self)@
                    == Self::after_delete_tx(old(self)@, db@, tx@),
                Err(_) => !Self::can_delete_tx(old(self)@, db@, tx@) && final(self)@ == old(
                    self,
                )@,
            },
    ;

    /// Consume one datum; `true` asks the engine to keep its hash.
    fn insert_datum(&mut self, hash: &DatumHash, datum: &Datum) -> (r: bool)
        requires
            old(self).inv(),
        ensures
            final(self).inv(),
            final(self).id_spec() == old(self).id_spec(),
            final(self)@ == Self::after_insert_datum(old(self)@, hash@, datum@),
            r == Self::keeps_datum(old(self)@, hash@, datum@),
    ;

    /// Undo one datum.
    fn delete_datum(&mut self, hash: &DatumHash)
        requires
            old(self).inv(),
        ensures
            final(self).inv(),
            final(self).id_spec() == old(self).id_spec(),
            final(self)@ == Self::after_delete_datum(old(self)@, hash@),
    ;

    /// Consume one script; `true` asks the engine to keep its hash.
    fn insert_script(&mut self, hash: &ScriptHash, script: &Script) -> (r: bool)
        requires
            old(self).inv(),
        ensures
            final(self).inv(),
            final(self).id_spec() == old(self).id_spec(),
            final(self)@ == Self::after_insert_script(old(self)@, hash@, script@),
            r == Self::keeps_script(old(self)@, hash@, script@),
    ;

    /// Undo one script.
    fn delete_script(&mut self, hash: &ScriptHash)
        requires
            old(self).inv(),
        ensures
            final(self).inv(),
            final(self).id_spec() == old(self).id_spec(),
            final(self)@ == Self::after_delete_script(old(self)@, hash@),
    ;

    /// Wipe the indexer's own tables.
    fn clear(&mut self)
        requires
            old(self).inv(),
        ensures
            final(self).inv(),
            final(self).id_spec() == old(self).id_spec(),
            final(self)@ == Self::after_clear(old(self)@),
    ;
}

/// The views of a list of indexers, in order.
pub open spec fn ix_views<I: Indexer>(s: Seq<I>) -> Seq<<I as View>::V> {
    Seq::new(s.len(), |j: int| s[j]@)
}

/// The state an indexer reaches after consuming a list of transactions
/// in order.
pub open spec fn after_txs<I: Indexer>(v: <I as View>::V, txs: Seq<TxV>) -> <I as View>::V
    decreases txs.len(),
{
    if txs.len() == 0 {
        v
    } else {
        I::after_insert_tx(after_txs::<I>(v, txs.drop_last()), txs.last())
    }
}

/// The state an indexer reaches after consuming a list of datums in
/// order.
pub open spec fn after_datums<I: Indexer>(
    v: <I as View>::V,
    datums: Seq<(Seq<u8>, Seq<u8>)>,
) -> <I as View>::V
    decreases datums.len(),
{
    if datums.len() == 0 {
        v
    } else {
        I::after_insert_datum(
            after_datums::<I>(v, datums.drop_last()),
            datums.last().0,
            datums.last().1,
        )
    }
}

/// The OR of the indexers' keep votes for transaction `i` of a block:
/// each indexer votes in the state it reached after the preceding
/// transactions.
pub open spec fn tx_vote<I: Indexer>(vs: Seq<<I as View>::V>, txs: Seq<TxV>, i: int) -> bool {
    exists|j: int|
        0 <= j < vs.len() && I::keeps_tx(after_txs::<I>(#[trigger] vs[j], txs.take(i)), txs[i])
}

/// The OR of the indexers' keep votes for datum `i` of a block: each
/// indexer votes in the state it reached after every transaction and
/// the preceding datums.
pub open spec fn datum_vote<I: Indexer>(
    vs: Seq<<I as View>::V>,
    txs: Seq<TxV>,
    datums: Seq<(Seq<u8>, Seq<u8>)>,
    i: int,
) -> bool {
    exists|j: int|
        0 <= j < vs.len() && I::keeps_datum(
            after_datums::<I>(after_txs::<I>(#[trigger] vs[j], txs), datums.take(i)),
            datums[i].0,
            datums[i].1,
        )
}

/// The hashes of the first `upto` transactions of a block that won a
/// keep vote, in block order.
pub open spec fn kept_tx_hashes<I: Indexer>(
    vs: Seq<<I as View>::V>,
    txs: Seq<TxV>,
    upto: int,
) -> Seq<Seq<u8>>
    decreases upto,
{
    if upto <= 0 {
        Seq::empty()
    } else {
        let pre = kept_tx_hashes::<I>(vs, txs, upto - 1);
        if tx_vote::<I>(vs, txs, upto - 1) {
            pre.push(txs[upto - 1].hash)
        } else {
            pre
        }
    }
}

/// The hashes of the first `upto` datums of a block that won a keep
/// vote, in block order.
pub open spec fn kept_datum_hashes<I: Indexer>(
    vs: Seq<<I as View>::V>,
    txs: Seq<TxV>,
    datums: Seq<(Seq<u8>, Seq<u8>)>,
    upto: int,
) -> Seq<Seq<u8>>
    decreases upto,
{
    if upto <= 0 {
        Seq::empty()
    } else {
        let pre = kept_datum_hashes::<I>(vs, txs, datums, upto - 1);
        if datum_vote::<I>(vs, txs, datums, upto - 1) {
            pre.push(datums[upto - 1].0)
        } else {
            pre
        }
    }
}

/// Every indexer of the list satisfies its invariant.
pub open spec fn all_inv<I: Indexer>(s: Seq<I>) -> bool {
    forall|j: int| 0 <= j < s.len() ==> (#[trigger] s[j]).inv()
}

/// The identity list of an indexer list, in order.
pub open spec fn ids_of<I: Indexer>(s: Seq<I>) -> Seq<Seq<char>> {
    Seq::new(s.len(), |j: int| s[j].id_spec())
}

/// Borrow one element of a vector mutably.
pub fn vec_at_mut<T>(v: &mut Vec<T>, i: usize) -> (element: &mut T)
    requires
        i < old(v).len(),
    ensures
        *element == old(v)@[i as int],
        final(v)@ == old(v)@.update(i as int, *final(element)),
{
    &mut v[i]
}

} // verus!
