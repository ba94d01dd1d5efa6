use vstd::prelude::*;

use crate::asset::Asset;
use crate::asset::AssetV;
use crate::asset::Mint;
use crate::asset::MintV;
use crate::hash::bytes_dup;
use crate::hash::bytes_eq;
use crate::script::Era;
use crate::script::NativeScript;
use crate::script::NativeScriptV;
use crate::script::Script;
use crate::script::ScriptV;
use crate::table::TableKey;

verus! {

/// A 32-byte transaction hash.
pub type TxHash = crate::hash::Hash<32>;

/// A 32-byte datum hash (blake2b-256 of the datum bytes).
pub type DatumHash = crate::hash::Hash<32>;

/// A 32-byte block hash.
pub type BlockHash = crate::hash::Hash<32>;

/// Raw datum bytes.
pub type Datum = Vec<u8>;

/// Raw address bytes.
pub type Address = Vec<u8>;

/// The views of a sequence of viewable values.
pub open spec fn seq_views<T: View>(s: Seq<T>) -> Seq<<T as View>::V> {
    Seq::new(s.len(), |i: int| s[i]@)
}

/// Mathematical value of a [`TxOutputPointer`].
#[verifier::ext_equal]
pub struct TxOutputPointerV {
    pub hash: Seq<u8>,
    pub index: u64,
}

/// Points at one output of a transaction: (tx hash, output index).
/// Ordered by hash, then index, so that a closed range over the index
/// sweeps every output of one transaction.
#[derive(Debug)]
pub struct TxOutputPointer {
    pub hash: TxHash,
    pub index: u64,
}

impl View for TxOutputPointer {
    type V = TxOutputPointerV;

    open spec fn view(&self) -> TxOutputPointerV {
        TxOutputPointerV { hash: self.hash@, index: self.index }
    }
}

impl TxOutputPointer {
    pub fn new(hash: TxHash, index: usize) -> (r: Self)
        requires
            index <= u64::MAX,
        ensures
            r@.hash == hash@,
            r@.index == index as u64,
    {
        TxOutputPointer { hash, index: index as u64 }
    }

    /// The closed index range that covers every output of the transaction.
    pub fn range(hash: &TxHash) -> (r: (Self, Self))
        ensures
            r.0@ == (TxOutputPointerV { hash: hash@, index: 0u64 }),
            r.1@ == (TxOutputPointerV { hash: hash@, index: u64::MAX }),
    {
        (
            TxOutputPointer { hash: hash.clone(), index: 0 },
            TxOutputPointer { hash: hash.clone(), index: u64::MAX },
        )
    }
}

impl Clone for TxOutputPointer {
    fn clone(&self) -> (r: Self)
        ensures
            r@ == self@,
    {
        TxOutputPointer { hash: self.hash.clone(), index: self.index }
    }
}

impl TableKey for TxOutputPointer {
    fn key_eq(&self, other: &Self) -> (r: bool) {
        self.index == other.index && self.hash.same(&other.hash)
    }
}

impl TableKey for crate::hash::Hash<32> {
    fn key_eq(&self, other: &Self) -> (r: bool) {
        self.same(other)
    }
}

/// Mathematical value of a [`TxOutput`].
#[verifier::ext_equal]
pub struct TxOutputV {
    pub address: Seq<u8>,
    pub lovelace: u64,
    pub assets: Seq<AssetV>,
    pub datum_hash: Option<Seq<u8>>,
}

/// One produced output: an address, an ada amount, the other assets it
/// carries, and an optional datum hash.
#[derive(Debug)]
pub struct TxOutput {
    pub address: Address,
    pub lovelace: u64,
    pub assets: Vec<Asset>,
    pub datum_hash: Option<DatumHash>,
}

impl View for TxOutput {
    type V = TxOutputV;

    open spec fn view(&self) -> TxOutputV {
        TxOutputV {
            address: self.address@,
            lovelace: self.lovelace,
            assets: seq_views(self.assets@),
            datum_hash: match self.datum_hash {
                Some(ref h) => Some(h@),
                None => None,
            },
        }
    }
}

fn asset_vec_dup(v: &Vec<Asset>) -> (r: Vec<Asset>)
    ensures
        seq_views(r@) == seq_views(v@),
{
    let mut r: Vec<Asset> = Vec::new();
    let n: usize = v.len();
    let mut i: usize = 0;
    while i < n
        invariant
            n == v@.len(),
            0 <= i <= n,
            r@.len() == i,
            forall|j: int| 0 <= j < i ==> (#[trigger] r@[j])@ == v@[j]@,
        decreases n - i,
    {
        r.push(v[i].clone());
        i = i + 1;
    }
    proof {
        assert(seq_views(r@) =~= seq_views(v@));
    }
    r
}

impl Clone for TxOutput {
    fn clone(&self) -> (r: Self)
        ensures
            r@ == self@,
    {
        TxOutput {
            address: bytes_dup(&self.address),
            lovelace: self.lovelace,
            assets: asset_vec_dup(&self.assets),
            datum_hash: match &self.datum_hash {
                Some(h) => Some(h.clone()),
                None => None,
            },
        }
    }
}

/// Whether two optional outputs have the same value.
pub fn tx_output_opt_eq(a: &Option<TxOutput>, b: &Option<TxOutput>) -> (r: bool)
    ensures
        r == (match (a, b) {
            (Some(x), Some(y)) => x@ == y@,
            (None, None) => true,
            _ => false,
        }),
{
    match (a, b) {
        (Some(x), Some(y)) => tx_output_eq(x, y),
        (None, None) => true,
        _ => false,
    }
}

/// Whether two outputs have the same value.
pub fn tx_output_eq(a: &TxOutput, b: &TxOutput) -> (r: bool)
    ensures
        r == (a@ == b@),
{
    if a.lovelace != b.lovelace {
        return false;
    }
    if !bytes_eq(&a.address, &b.address) {
        return false;
    }
    let dh = match (&a.datum_hash, &b.datum_hash) {
        (Some(x), Some(y)) => x.same(y),
        (None, None) => true,
        _ => false,
    };
    if !dh {
        return false;
    }
    if a.assets.len() != b.assets.len() {
        assert(a@.assets.len() != b@.assets.len());
        return false;
    }
    let n: usize = a.assets.len();
    let mut i: usize = 0;
    while i < n
        invariant
            n == a.assets@.len(),
            a.assets@.len() == b.assets@.len(),
            0 <= i <= n,
            a.lovelace == b.lovelace,
            a.address@ == b.address@,
            a@.datum_hash == b@.datum_hash,
            forall|j: int| 0 <= j < i ==> (#[trigger] a.assets@[j])@ == b.assets@[j]@,
        decreases n - i,
    {
        let x = &a.assets[i];
        let y = &b.assets[i];
        if x.quantity != y.quantity || !x.policy.same(&y.policy) || !bytes_eq(&x.name, &y.name) {
            assert(a@.assets[i as int] != b@.assets[i as int]);
            return false;
        }
        i = i + 1;
    }
    proof {
        assert(a@.assets =~= b@.assets);
    }
    true
}

/// Mathematical value of a [`Tx`].
#[verifier::ext_equal]
pub struct TxV {
    pub hash: Seq<u8>,
    pub inputs: Seq<TxOutputPointerV>,
    pub outputs: Seq<TxOutputV>,
    pub collateral: Seq<TxOutputPointerV>,
    pub collateral_return: Option<TxOutputV>,
    pub reference_inputs: Seq<TxOutputPointerV>,
    pub mints: Seq<MintV>,
    pub scripts: Seq<ScriptV>,
    pub native_scripts: Seq<NativeScriptV>,
    pub valid: bool,
}

impl TxV {
    /// The pointers this transaction spends: its inputs when it is valid,
    /// its collateral when it is not.
    pub open spec fn spent(self) -> Seq<TxOutputPointerV> {
        if self.valid {
            self.inputs
        } else {
            self.collateral
        }
    }

    /// The outputs this transaction produces: its declared outputs when
    /// it is valid; when it is not, its only produce is the collateral
    /// return, if present. A produce is addressed by its position in
    /// this sequence (so an invalid transaction's collateral return
    /// stands at index zero).
    pub open spec fn unspent(self) -> Seq<TxOutputV> {
        if self.valid {
            self.outputs
        } else {
            match self.collateral_return {
                Some(o) => Seq::empty().push(o),
                None => Seq::empty(),
            }
        }
    }
}

/// One transaction, reduced to what the engine stores and the indexers
/// consume. When `valid` is false the chain charged the collateral
/// instead of applying the transaction.
pub struct Tx {
    pub hash: TxHash,
    pub inputs: Vec<TxOutputPointer>,
    pub outputs: Vec<TxOutput>,
    pub collateral: Vec<TxOutputPointer>,
    pub collateral_return: Option<TxOutput>,
    pub reference_inputs: Vec<TxOutputPointer>,
    pub mints: Vec<Mint>,
    pub scripts: Vec<Script>,
    pub native_scripts: Vec<NativeScript>,
    pub valid: bool,
}

impl View for Tx {
    type V = TxV;

    open spec fn view(&self) -> TxV {
        TxV {
            hash: self.hash@,
            inputs: seq_views(self.inputs@),
            outputs: seq_views(self.outputs@),
            collateral: seq_views(self.collateral@),
            collateral_return: match self.collateral_return {
                Some(ref o) => Some(o@),
                None => None,
            },
            reference_inputs: seq_views(self.reference_inputs@),
            mints: seq_views(self.mints@),
            scripts: seq_views(self.scripts@),
            native_scripts: seq_views(self.native_scripts@),
            valid: self.valid,
        }
    }
}

fn pointer_vec_dup(v: &Vec<TxOutputPointer>) -> (r: Vec<TxOutputPointer>)
    ensures
        seq_views(r@) == seq_views(v@),
{
    let mut r: Vec<TxOutputPointer> = Vec::new();
    let n: usize = v.len();
    let mut i: usize = 0;
    while i < n
        invariant
            n == v@.len(),
            0 <= i <= n,
            r@.len() == i,
            forall|j: int| 0 <= j < i ==> (#[trigger] r@[j])@ == v@[j]@,
        decreases n - i,
    {
        r.push(v[i].clone());
        i = i + 1;
    }
    proof {
        assert(seq_views(r@) =~= seq_views(v@));
    }
    r
}

fn output_vec_dup(v: &Vec<TxOutput>) -> (r: Vec<TxOutput>)
    ensures
        seq_views(r@) == seq_views(v@),
{
    let mut r: Vec<TxOutput> = Vec::new();
    let n: usize = v.len();
    let mut i: usize = 0;
    while i < n
        invariant
            n == v@.len(),
            0 <= i <= n,
            r@.len() == i,
            forall|j: int| 0 <= j < i ==> (#[trigger] r@[j])@ == v@[j]@,
        decreases n - i,
    {
        r.push(v[i].clone());
        i = i + 1;
    }
    proof {
        assert(seq_views(r@) =~= seq_views(v@));
    }
    r
}

fn mint_vec_dup(v: &Vec<Mint>) -> (r: Vec<Mint>)
    ensures
        seq_views(r@) == seq_views(v@),
{
    let mut r: Vec<Mint> = Vec::new();
    let n: usize = v.len();
    let mut i: usize = 0;
    while i < n
        invariant
            n == v@.len(),
            0 <= i <= n,
            r@.len() == i,
            forall|j: int| 0 <= j < i ==> (#[trigger] r@[j])@ == v@[j]@,
        decreases n - i,
    {
        r.push(v[i].clone());
        i = i + 1;
    }
    proof {
        assert(seq_views(r@) =~= seq_views(v@));
    }
    r
}

fn script_vec_dup(v: &Vec<Script>) -> (r: Vec<Script>)
    ensures
        seq_views(r@) == seq_views(v@),
{
    let mut r: Vec<Script> = Vec::new();
    let n: usize = v.len();
    let mut i: usize = 0;
    while i < n
        invariant
            n == v@.len(),
            0 <= i <= n,
            r@.len() == i,
            forall|j: int| 0 <= j < i ==> (#[trigger] r@[j])@ == v@[j]@,
        decreases n - i,
    {
        r.push(v[i].clone());
        i = i + 1;
    }
    proof {
        assert(seq_views(r@) =~= seq_views(v@));
    }
    r
}

fn native_script_vec_dup2(v: &Vec<NativeScript>) -> (r: Vec<NativeScript>)
    ensures
        seq_views(r@) == seq_views(v@),
{
    let mut r: Vec<NativeScript> = Vec::new();
    let n: usize = v.len();
    let mut i: usize = 0;
    while i < n
        invariant
            n == v@.len(),
            0 <= i <= n,
            r@.len() == i,
            forall|j: int| 0 <= j < i ==> (#[trigger] r@[j])@ == v@[j]@,
        decreases n - i,
    {
        r.push(v[i].clone());
        i = i + 1;
    }
    proof {
        assert(seq_views(r@) =~= seq_views(v@));
    }
    r
}

impl Tx {
    /// The pointers this transaction spends (see [`TxV::spent`]).
    pub fn spent(&self) -> (r: &Vec<TxOutputPointer>)
        ensures
            seq_views(r@) == self@.spent(),
    {
        if self.valid {
            &self.inputs
        } else {
            &self.collateral
        }
    }

    /// The outputs this transaction produces (see [`TxV::unspent`]).
    pub fn unspent(&self) -> (r: Vec<TxOutput>)
        ensures
            seq_views(r@) == self@.unspent(),
    {
        if self.valid {
            output_vec_dup(&self.outputs)
        } else {
            match &self.collateral_return {
                Some(o) => {
                    let mut r: Vec<TxOutput> = Vec::new();
                    r.push(o.clone());
                    proof {
                        assert(seq_views(r@) =~= Seq::<TxOutputV>::empty().push(o@));
                    }
                    r
                },
                None => {
                    let r: Vec<TxOutput> = Vec::new();
                    proof {
                        assert(seq_views(r@) =~= Seq::<TxOutputV>::empty());
                    }
                    r
                },
            }
        }
    }
}

impl Clone for Tx {
    fn clone(&self) -> (r: Self)
        ensures
            r@ == self@,
    {
        Tx {
            hash: self.hash.clone(),
            inputs: pointer_vec_dup(&self.inputs),
            outputs: output_vec_dup(&self.outputs),
            collateral: pointer_vec_dup(&self.collateral),
            collateral_return: match &self.collateral_return {
                Some(o) => Some(o.clone()),
                None => None,
            },
            reference_inputs: pointer_vec_dup(&self.reference_inputs),
            mints: mint_vec_dup(&self.mints),
            scripts: script_vec_dup(&self.scripts),
            native_scripts: native_script_vec_dup2(&self.native_scripts),
            valid: self.valid,
        }
    }
}

/// Gather the datums one transaction contributes: the inline datums of
/// its declared outputs always, and the collateral return's inline
/// datum exactly when the transaction is invalid (then the return is
/// its only produce). The decoding edge hands in what it found; this
/// function owns the rule.
pub fn gather_tx_datums(
    output_datums: Vec<(DatumHash, Datum)>,
    collateral_datum: Option<(DatumHash, Datum)>,
    valid: bool,
) -> (r: Vec<(DatumHash, Datum)>)
    ensures
        r@ == (match collateral_datum {
            Some(d) => if !valid {
                output_datums@.push(d)
            } else {
                output_datums@
            },
            None => output_datums@,
        }),
{
    let mut r = output_datums;
    match collateral_datum {
        Some(d) => {
            if !valid {
                r.push(d);
            }
        },
        None => (),
    }
    r
}

/// Mathematical value of a [`Block`].
#[verifier::ext_equal]
pub struct BlockV {
    pub era: Era,
    pub hash: Seq<u8>,
    pub number: u64,
    pub slot: u64,
    pub size: usize,
    pub txs: Seq<TxV>,
    pub datums: Seq<(Seq<u8>, Seq<u8>)>,
}

/// One decoded block, handed to the engine by the ingestion edge: its
/// identity, its transactions, and the inline datums gathered from them.
pub struct Block {
    pub era: Era,
    pub hash: BlockHash,
    pub number: u64,
    pub slot: u64,
    pub size: usize,
    pub txs: Vec<Tx>,
    pub datums: Vec<(DatumHash, Datum)>,
}

impl View for Block {
    type V = BlockV;

    open spec fn view(&self) -> BlockV {
        BlockV {
            era: self.era,
            hash: self.hash@,
            number: self.number,
            slot: self.slot,
            size: self.size,
            txs: seq_views(self.txs@),
            datums: Seq::new(self.datums@.len(), |i: int| (self.datums@[i].0@, self.datums@[i].1@)),
        }
    }
}

} // verus!
