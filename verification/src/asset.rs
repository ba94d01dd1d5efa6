use vstd::prelude::*;

use crate::hash::bytes_dup;
use crate::hash::bytes_eq;

verus! {

/// A minting policy identifier: a 28-byte script hash.
pub type Policy = crate::hash::Hash<28>;

/// The raw name of an asset under a policy.
pub type AssetName = Vec<u8>;

/// Mathematical value of an [`Asset`].
#[verifier::ext_equal]
pub struct AssetV {
    pub policy: Seq<u8>,
    pub name: Seq<u8>,
    pub quantity: u64,
}

/// A positive amount of one asset held by an output.
#[derive(Debug)]
pub struct Asset {
    pub policy: Policy,
    pub name: AssetName,
    pub quantity: u64,
}

impl View for Asset {
    type V = AssetV;

    open spec fn view(&self) -> AssetV {
        AssetV { policy: self.policy@, name: self.name@, quantity: self.quantity }
    }
}

impl Clone for Asset {
    fn clone(&self) -> (r: Self)
        ensures
            r@ == self@,
    {
        Asset {
            policy: self.policy.clone(),
            name: bytes_dup(&self.name),
            quantity: self.quantity,
        }
    }
}

/// Mathematical value of a [`Mint`].
#[verifier::ext_equal]
pub struct MintV {
    pub policy: Seq<u8>,
    pub name: Seq<u8>,
    pub quantity: i64,
}

/// A signed minted (or burned) amount of one asset.
#[derive(Debug)]
pub struct Mint {
    pub policy: Policy,
    pub name: AssetName,
    pub quantity: i64,
}

impl View for Mint {
    type V = MintV;

    open spec fn view(&self) -> MintV {
        MintV { policy: self.policy@, name: self.name@, quantity: self.quantity }
    }
}

impl Clone for Mint {
    fn clone(&self) -> (r: Self)
        ensures
            r@ == self@,
    {
        Mint { policy: self.policy.clone(), name: bytes_dup(&self.name), quantity: self.quantity }
    }
}

/// A (policy, name) pair pointing at one concrete asset.
pub struct AssetPointer(pub Policy, pub AssetName);

impl Clone for AssetPointer {
    fn clone(&self) -> (r: Self)
        ensures
            r.0@ == self.0@,
            r.1@ == self.1@,
    {
        AssetPointer(self.0.clone(), bytes_dup(&self.1))
    }
}

/// Mathematical value of an [`AssetId`].
#[verifier::ext_equal]
pub struct AssetIdV {
    pub policy: Seq<u8>,
    pub name: Option<Seq<u8>>,
}

impl AssetIdV {
    /// Whether an asset falls under this identifier: the policies agree,
    /// and a present name must agree too (a missing name is a wildcard).
    pub open spec fn matches(self, asset: AssetV) -> bool {
        self.policy == asset.policy && match self.name {
            Some(n) => n == asset.name,
            None => true,
        }
    }
}

/// Identifies one asset, or every asset of a policy when `name` is absent.
#[derive(Debug)]
pub struct AssetId {
    pub policy: Policy,
    pub name: Option<AssetName>,
}

impl View for AssetId {
    type V = AssetIdV;

    open spec fn view(&self) -> AssetIdV {
        AssetIdV {
            policy: self.policy@,
            name: match self.name {
                Some(ref n) => Some(n@),
                None => None,
            },
        }
    }
}

impl AssetId {
    pub fn new(policy: Policy, name: Option<AssetName>) -> (r: Self)
        ensures
            r.policy@ == policy@,
            r@.name == match name {
                Some(ref n) => Some::<Seq<u8>>(n@),
                None => None::<Seq<u8>>,
            },
    {
        AssetId { policy, name }
    }

    /// The identifier that names exactly this asset.
    pub fn from_asset(asset: &Asset) -> (r: Self)
        ensures
            r@.policy == asset@.policy,
            r@.name == Some(asset@.name),
            r@.matches(asset@),
    {
        AssetId { policy: asset.policy.clone(), name: Some(bytes_dup(&asset.name)) }
    }

    /// Whether the given asset falls under this identifier.
    pub fn matches(&self, asset: &Asset) -> (r: bool)
        ensures
            r == self@.matches(asset@),
    {
        if !self.policy.same(&asset.policy) {
            return false;
        }
        match &self.name {
            Some(n) => bytes_eq(n, &asset.name),
            None => true,
        }
    }
}

impl Clone for AssetId {
    fn clone(&self) -> (r: Self)
        ensures
            r@ == self@,
    {
        AssetId {
            policy: self.policy.clone(),
            name: match &self.name {
                Some(n) => Some(bytes_dup(n)),
                None => None,
            },
        }
    }
}

impl PartialEq for AssetId {
    fn eq(&self, other: &Self) -> (r: bool) {
        if !self.policy.same(&other.policy) {
            return false;
        }
        match (&self.name, &other.name) {
            (Some(a), Some(b)) => bytes_eq(a, b),
            (None, None) => true,
            _ => false,
        }
    }
}

impl vstd::std_specs::cmp::PartialEqSpecImpl for AssetId {
    open spec fn obeys_eq_spec() -> bool {
        true
    }

    open spec fn eq_spec(&self, other: &Self) -> bool {
        self@ == other@
    }
}

} // verus!
